//! The bounded stream of events of one execution.
//!
//! The queue is bounded by a number of events and by a number of output bytes.
//! A producer never waits: a chunk that does not fit is counted, exactly, and
//! dropped. The last event has a slot of its own, so a full queue cannot lose
//! it, and so has a final notice of what was dropped.

use std::collections::VecDeque;
use std::sync::Arc;

use vstd::prelude::*;
use vstd::string::*;

use crate::envelope::Denial;
use crate::error::{ToolError, ToolResult};
use crate::execution::contract::{
    terminal_kind, DroppedEvidence, ExecutionEvent, ExecutionEventKind, ExecutionId,
    ExecutionTerminal, FenceEvidence,
};
use crate::execution::limits::{ExecutionLimits, LimitsView};

verus! {

/// Which pipe an output chunk came from.
#[derive(Debug, Clone, Copy, PartialEq, Eq, Structural)]
pub enum OutputStream {
    /// Standard output.
    Stdout,
    /// Standard error.
    Stderr,
}

/// What became of an event.
#[derive(Debug, Clone, Copy, PartialEq, Eq, Structural)]
pub enum ExecutionEmit {
    /// It is queued.
    Delivered,
    /// It did not fit and was counted.
    Dropped,
}

/// How far an execution is.
#[derive(Debug, Clone, Copy, PartialEq, Eq, Structural)]
pub enum Phase {
    /// No process exists yet.
    Accepted,
    /// A process tree runs.
    Started,
    /// The last event was published.
    Terminal,
}

/// The state that the producers and the consumer of a stream share.
#[derive(Debug)]
pub struct StreamState {
    id: ExecutionId,
    limits: ExecutionLimits,
    events: VecDeque<ExecutionEvent>,
    queued_output_bytes: usize,
    dropped: DroppedEvidence,
    reported_dropped: DroppedEvidence,
    final_notice: Option<ExecutionEvent>,
    terminal: Option<ExecutionEvent>,
    next_sequence: u64,
    phase: Phase,
    consumer_alive: bool,
}

/// The model of [`StreamState`].
#[verifier::ext_equal]
pub ghost struct StreamView {
    pub id: ExecutionId,
    pub limits: LimitsView,
    pub events: Seq<ExecutionEvent>,
    pub queued_output_bytes: int,
    pub dropped: DroppedEvidence,
    pub reported_dropped: DroppedEvidence,
    pub final_notice: Option<ExecutionEvent>,
    pub terminal: Option<ExecutionEvent>,
    pub next_sequence: u64,
    pub phase: Phase,
    pub consumer_alive: bool,
}

impl View for StreamState {
    type V = StreamView;

    closed spec fn view(&self) -> StreamView {
        StreamView {
            id: self.id,
            limits: self.limits@,
            events: self.events@,
            queued_output_bytes: self.queued_output_bytes as int,
            dropped: self.dropped,
            reported_dropped: self.reported_dropped,
            final_notice: self.final_notice,
            terminal: self.terminal,
            next_sequence: self.next_sequence,
            phase: self.phase,
            consumer_alive: self.consumer_alive,
        }
    }
}

/// The sum, or the greatest number where it is larger.
pub open spec fn capped_sum(a: u64, b: int) -> u64 {
    if a + b > u64::MAX {
        u64::MAX
    } else {
        (a + b) as u64
    }
}

fn add_capped(a: u64, b: u64) -> (r: u64)
    ensures
        r == capped_sum(a, b as int),
{
    if b > u64::MAX - a {
        u64::MAX
    } else {
        a + b
    }
}

/// The number of output bytes of some events.
pub open spec fn output_bytes(events: Seq<ExecutionEvent>) -> int
    decreases events.len(),
{
    if events.len() == 0 {
        0
    } else {
        output_bytes(events.drop_last()) + events.last().kind.output_bytes()
    }
}

/// The totals with one more dropped chunk.
pub open spec fn with_dropped_chunk(d: DroppedEvidence, stream: OutputStream, len: int) -> DroppedEvidence {
    DroppedEvidence {
        stdout_bytes: if stream == OutputStream::Stdout {
            capped_sum(d.stdout_bytes, len)
        } else {
            d.stdout_bytes
        },
        stderr_bytes: if stream == OutputStream::Stderr {
            capped_sum(d.stderr_bytes, len)
        } else {
            d.stderr_bytes
        },
        events: capped_sum(d.events, 1),
    }
}

/// The kind carries exactly this output.
pub open spec fn carries(kind: ExecutionEventKind, stream: OutputStream, bytes: Seq<u8>) -> bool {
    match stream {
        OutputStream::Stdout => kind matches ExecutionEventKind::Stdout(b) && b@ == bytes,
        OutputStream::Stderr => kind matches ExecutionEventKind::Stderr(b) && b@ == bytes,
    }
}

impl StreamView {
    /// The state of a new stream.
    pub open spec fn fresh(id: ExecutionId, limits: LimitsView) -> StreamView {
        StreamView {
            id,
            limits,
            events: Seq::empty(),
            queued_output_bytes: 0,
            dropped: DroppedEvidence { stdout_bytes: 0, stderr_bytes: 0, events: 0 },
            reported_dropped: DroppedEvidence { stdout_bytes: 0, stderr_bytes: 0, events: 0 },
            final_notice: None,
            terminal: None,
            next_sequence: 0,
            phase: Phase::Accepted,
            consumer_alive: true,
        }
    }

    /// What the consumer is still to be given, in order: the queue, then the
    /// final notice, then the last event.
    pub open spec fn pending(self) -> Seq<ExecutionEvent> {
        self.events + (match self.final_notice {
            Some(e) => seq![e],
            None => Seq::empty(),
        }) + (match self.terminal {
            Some(e) => seq![e],
            None => Seq::empty(),
        })
    }

    /// The state keeps its promises: the queue is within its bounds, its output
    /// is counted, only the last slot holds an end, and the numbers of the
    /// pending events leave no gap.
    pub open spec fn consistent(self) -> bool {
        &&& self.limits.max_queued_events > 0
        &&& self.limits.max_queued_output_bytes > 0
        &&& self.events.len() <= self.limits.max_queued_events + 1
        &&& self.phase == Phase::Accepted ==> self.events.len() <= self.limits.max_queued_events
        &&& self.queued_output_bytes == output_bytes(self.events)
        &&& 0 <= self.queued_output_bytes <= self.limits.max_queued_output_bytes
        &&& forall|i: int|
            0 <= i < self.events.len() ==> !(#[trigger] self.events[i]).kind.ends()
        &&& forall|i: int|
            0 <= i < self.pending().len() ==> (#[trigger] self.pending()[i]).execution == self.id
        &&& (self.final_notice matches Some(e) ==> !e.kind.ends() && e.kind.output_bytes() == 0)
        &&& (self.terminal matches Some(e) ==> e.kind.ends())
        &&& self.phase != Phase::Terminal ==> self.terminal is None && self.final_notice is None
        &&& self.final_notice is Some ==> self.terminal is Some
        &&& self.next_sequence < u64::MAX ==> self.numbered()
    }

    /// The pending events carry consecutive numbers, up to the next one.
    pub open spec fn numbered(self) -> bool {
        &&& self.pending().len() <= self.next_sequence
        &&& forall|i: int|
            0 <= i < self.pending().len() ==> (#[trigger] self.pending()[i]).sequence
                == self.next_sequence - self.pending().len() + i
    }

    /// How many events the consumer was given.
    pub open spec fn delivered(self) -> int {
        self.next_sequence - self.pending().len()
    }

    /// There is room for one more event.
    pub open spec fn has_room(self) -> bool {
        self.events.len() < self.limits.max_queued_events
    }

    /// The state with one more event in the queue.
    pub open spec fn with_event(self, kind: ExecutionEventKind) -> StreamView {
        StreamView {
            events: self.events.push(
                ExecutionEvent { execution: self.id, sequence: self.next_sequence, kind },
            ),
            next_sequence: capped_sum(self.next_sequence, 1),
            queued_output_bytes: self.queued_output_bytes + kind.output_bytes(),
            ..self
        }
    }

    /// The state with one more dropped chunk.
    pub open spec fn with_drop(self, stream: OutputStream, len: int) -> StreamView {
        StreamView { dropped: with_dropped_chunk(self.dropped, stream, len), ..self }
    }

    /// The state with a notice of what was dropped, where one is due and fits.
    pub open spec fn with_notice(self) -> StreamView {
        if self.dropped == self.reported_dropped || !self.has_room() {
            self
        } else {
            StreamView { reported_dropped: self.dropped, ..self }.with_event(
                ExecutionEventKind::OutputTruncated(self.dropped),
            )
        }
    }

    /// The chunk fits into the queue.
    pub open spec fn fits(self, len: int) -> bool {
        self.has_room() && self.queued_output_bytes + len <= self.limits.max_queued_output_bytes
    }

    /// The state without its next event.
    pub open spec fn taken(self) -> StreamView {
        if self.events.len() > 0 {
            StreamView {
                events: self.events.subrange(1, self.events.len() as int),
                queued_output_bytes: self.queued_output_bytes
                    - self.events[0].kind.output_bytes(),
                ..self
            }
        } else if self.final_notice is Some {
            StreamView { final_notice: None, ..self }
        } else {
            StreamView { terminal: None, ..self }
        }
    }

    /// The state with its last event.
    pub open spec fn with_terminal(self, terminal: ExecutionTerminal) -> StreamView {
        let due = self.dropped != self.reported_dropped;
        let sequence = if due {
            capped_sum(self.next_sequence, 1)
        } else {
            self.next_sequence
        };
        StreamView {
            phase: Phase::Terminal,
            reported_dropped: self.dropped,
            final_notice: if due {
                Some(
                    ExecutionEvent {
                        execution: self.id,
                        sequence: self.next_sequence,
                        kind: ExecutionEventKind::OutputTruncated(self.dropped),
                    },
                )
            } else {
                self.final_notice
            },
            terminal: Some(
                ExecutionEvent { execution: self.id, sequence, kind: terminal_kind(terminal) },
            ),
            next_sequence: capped_sum(sequence, 1),
            ..self
        }
    }
}

impl StreamView {
    /// The state after a producer said that the request was accepted.
    pub open spec fn after_accepted(self) -> StreamView {
        if self.phase != Phase::Accepted || self.next_sequence != 0 {
            self
        } else {
            self.with_event(ExecutionEventKind::Accepted)
        }
    }

    /// The state after a producer said that a process tree runs.
    pub open spec fn after_started(self, pid: u32, fence: Arc<FenceEvidence>) -> StreamView {
        if self.phase != Phase::Accepted {
            self
        } else {
            StreamView { phase: Phase::Started, ..self }.with_event(
                ExecutionEventKind::Started { pid, fence },
            )
        }
    }

    /// What becomes of a chunk of output, unless it is refused.
    pub open spec fn output_emit(self, len: int) -> Option<ExecutionEmit> {
        if len == 0 {
            Some(ExecutionEmit::Delivered)
        } else if self.phase != Phase::Started || len > self.limits.max_output_chunk_bytes {
            None
        } else if !self.fits(len) || !self.with_notice().has_room() {
            Some(ExecutionEmit::Dropped)
        } else {
            Some(ExecutionEmit::Delivered)
        }
    }

    /// The state after a chunk of output, which is queued as `kind` where it is
    /// queued.
    pub open spec fn after_output(
        self,
        stream: OutputStream,
        len: int,
        kind: ExecutionEventKind,
    ) -> StreamView {
        if len == 0 || self.output_emit(len) is None {
            self
        } else if !self.fits(len) {
            self.with_drop(stream, len)
        } else if !self.with_notice().has_room() {
            self.with_notice().with_drop(stream, len)
        } else {
            self.with_notice().with_event(kind)
        }
    }

    /// The state after a refusal that happened during the execution.
    pub open spec fn after_denial(self, denial: Denial) -> StreamView {
        if self.phase == Phase::Terminal {
            self
        } else if !self.has_room() {
            StreamView {
                dropped: DroppedEvidence {
                    events: capped_sum(self.dropped.events, 1),
                    ..self.dropped
                },
                ..self
            }
        } else {
            self.with_event(ExecutionEventKind::Denial(denial))
        }
    }

    /// The state after a final record was published.
    pub open spec fn after_terminal(self, terminal: ExecutionTerminal) -> StreamView {
        if self.phase == Phase::Terminal || (self.phase == Phase::Accepted && terminal is Exited) {
            self
        } else {
            self.with_terminal(terminal)
        }
    }
}

/// The refusal of an event that does not belong where it comes.
pub open spec fn protocol_refusal(message: Seq<char>) -> Seq<char> {
    "invalid execution event sequence: "@ + message
}

fn protocol(message: &str) -> (r: ToolError)
    ensures
        r.is_denial(protocol_refusal(message@)),
{
    ToolError::denied("invalid execution event sequence: ".to_owned().concat(message))
}

fn copy_bytes(bytes: &[u8]) -> (r: Vec<u8>)
    ensures
        r@ == bytes@,
{
    let mut r: Vec<u8> = Vec::new();
    let mut i: usize = 0;
    while i < bytes.len()
        invariant
            i <= bytes.len(),
            r@ == bytes@.take(i as int),
        decreases bytes.len() - i,
    {
        r.push(bytes[i]);
        assert(bytes@.take(i + 1) =~= bytes@.take(i as int).push(bytes@[i as int]));
        i = i + 1;
    }
    assert(bytes@.take(i as int) =~= bytes@);
    r
}

/// One more queued event keeps the promises of a state.
pub proof fn lemma_pending_push(s: StreamView, kind: ExecutionEventKind)
    requires
        s.consistent(),
        s.phase != Phase::Terminal,
        !kind.ends(),
        s.queued_output_bytes + kind.output_bytes() <= s.limits.max_queued_output_bytes,
        s.has_room() || (s.phase == Phase::Started && s.events.len()
            <= s.limits.max_queued_events),
    ensures
        s.with_event(kind).consistent(),
        s.with_event(kind).delivered() == s.delivered() || s.next_sequence == u64::MAX,
{
    let after = s.with_event(kind);
    assert(s.pending() =~= s.events);
    assert(after.pending() =~= after.events);
    assert(after.events.drop_last() =~= s.events);
    assert forall|i: int| 0 <= i < after.events.len() implies !(#[trigger] after.events[i]).kind.ends() by {
        if i < s.events.len() {
            assert(after.events[i] == s.events[i]);
        }
    }
    assert forall|i: int| 0 <= i < after.pending().len() implies (
    #[trigger] after.pending()[i]).execution == after.id by {
        if i < s.events.len() {
            assert(after.pending()[i] == s.pending()[i]);
        }
    }
    if after.next_sequence < u64::MAX {
        assert forall|i: int| 0 <= i < after.pending().len() implies (
        #[trigger] after.pending()[i]).sequence == after.next_sequence - after.pending().len() + i by {
            if i < s.events.len() {
                assert(after.pending()[i] == s.pending()[i]);
            }
        }
    }
}

proof fn lemma_output_bytes_nonnegative(events: Seq<ExecutionEvent>)
    ensures
        output_bytes(events) >= 0,
    decreases events.len(),
{
    if events.len() > 0 {
        lemma_output_bytes_nonnegative(events.drop_last());
    }
}

proof fn lemma_output_bytes_first(events: Seq<ExecutionEvent>)
    requires
        events.len() > 0,
    ensures
        output_bytes(events) == events[0].kind.output_bytes() + output_bytes(
            events.subrange(1, events.len() as int),
        ),
    decreases events.len(),
{
    let rest = events.subrange(1, events.len() as int);
    if events.len() == 1 {
        assert(events.drop_last() =~= Seq::empty());
        assert(rest =~= Seq::empty());
    } else {
        lemma_output_bytes_first(events.drop_last());
        assert(rest.drop_last() =~= events.drop_last().subrange(1, events.len() - 1));
        assert(rest.last() == events.last());
    }
}

impl StreamState {
    fn push(&mut self, kind: ExecutionEventKind)
        requires
            old(self)@.consistent(),
            old(self)@.phase != Phase::Terminal,
            !kind.ends(),
            old(self)@.queued_output_bytes + kind.output_bytes()
                <= old(self)@.limits.max_queued_output_bytes,
            old(self)@.has_room() || (old(self)@.phase == Phase::Started && old(self)@.events.len()
                <= old(self)@.limits.max_queued_events),
        ensures
            final(self)@ == old(self)@.with_event(kind),
            final(self)@.consistent(),
    {
        proof {
            lemma_pending_push(self@, kind);
        }
        let sequence: u64 = self.next_sequence;
        self.next_sequence = add_capped(sequence, 1);
        let _max: usize = self.limits.max_queued_output_bytes();
        self.queued_output_bytes = self.queued_output_bytes + kind.output_len();
        self.events.push_back(ExecutionEvent { execution: self.id, sequence, kind });
    }

    fn record_drop(&mut self, stream: OutputStream, len: usize)
        requires
            old(self)@.consistent(),
        ensures
            final(self)@ == old(self)@.with_drop(stream, len as int),
            final(self)@.consistent(),
    {
        match stream {
            OutputStream::Stdout => {
                self.dropped.stdout_bytes = add_capped(self.dropped.stdout_bytes, len as u64);
            },
            OutputStream::Stderr => {
                self.dropped.stderr_bytes = add_capped(self.dropped.stderr_bytes, len as u64);
            },
        }
        self.dropped.events = add_capped(self.dropped.events, 1);
        assert(self@.pending() =~= old(self)@.pending());
    }

    fn flush_truncation_notice(&mut self)
        requires
            old(self)@.consistent(),
            old(self)@.phase != Phase::Terminal,
        ensures
            final(self)@ == old(self)@.with_notice(),
            final(self)@.consistent(),
    {
        if self.dropped == self.reported_dropped {
            return;
        }
        if self.events.len() >= self.limits.max_queued_events() {
            return;
        }
        self.reported_dropped = self.dropped;
        assert(self@.pending() =~= old(self)@.pending());
        let dropped: DroppedEvidence = self.dropped;
        self.push(ExecutionEventKind::OutputTruncated(dropped));
    }

    /// The consumer gave up its handle.
    pub fn abandon(&mut self)
        requires
            old(self)@.consistent(),
        ensures
            final(self)@ == (StreamView { consumer_alive: false, ..old(self)@ }),
            final(self)@.consistent(),
    {
        self.consumer_alive = false;
        assert(self@.pending() =~= old(self)@.pending());
    }
}

/// The producer half of a stream: what a producer may do to its state.
#[derive(Debug, Clone, Copy)]
pub struct ExecutionEventSink;

impl ExecutionEventSink {
    /// Whether a consumer still holds the handle.
    pub fn consumer_alive(&self, state: &StreamState) -> (r: bool)
        ensures
            r == state@.consumer_alive,
    {
        state.consumer_alive
    }

    /// What was dropped so far.
    pub fn dropped(&self, state: &StreamState) -> (r: DroppedEvidence)
        ensures
            r == state@.dropped,
    {
        state.dropped
    }

    /// Emit that the request was accepted: the first event, before any
    /// process.
    pub fn accepted(&self, state: &mut StreamState) -> (r: ToolResult<ExecutionEmit>)
        requires
            old(state)@.consistent(),
        ensures
            final(state)@.consistent(),
            final(state)@ == old(state)@.after_accepted(),
            if old(state)@.phase != Phase::Accepted || old(state)@.next_sequence != 0 {
                r is Err && r->Err_0.is_denial(
                    protocol_refusal("accepted must be the first event"@),
                ) && final(state)@ == old(state)@
            } else {
                r == Ok::<ExecutionEmit, ToolError>(ExecutionEmit::Delivered) && final(state)@
                    == old(state)@.with_event(ExecutionEventKind::Accepted)
            },
    {
        if state.phase != Phase::Accepted || state.next_sequence != 0 {
            return Err(protocol("accepted must be the first event"));
        }
        assert(state@.pending().len() == 0);
        state.push(ExecutionEventKind::Accepted);
        Ok(ExecutionEmit::Delivered)
    }

    /// Emit that a process tree runs, once.
    pub fn started(&self, state: &mut StreamState, pid: u32, fence: Arc<FenceEvidence>) -> (r:
        ToolResult<ExecutionEmit>)
        requires
            old(state)@.consistent(),
        ensures
            final(state)@.consistent(),
            final(state)@ == old(state)@.after_started(pid, fence),
            if old(state)@.phase != Phase::Accepted {
                r is Err && r->Err_0.is_denial(
                    protocol_refusal("started must follow accepted exactly once"@),
                ) && final(state)@ == old(state)@
            } else {
                r == Ok::<ExecutionEmit, ToolError>(ExecutionEmit::Delivered) && final(state)@
                    == (StreamView { phase: Phase::Started, ..old(state)@ }).with_event(
                    ExecutionEventKind::Started { pid, fence },
                )
            },
    {
        if state.phase != Phase::Accepted {
            return Err(protocol("started must follow accepted exactly once"));
        }
        state.phase = Phase::Started;
        assert(state@.pending() =~= old(state)@.pending());
        state.push(ExecutionEventKind::Started { pid, fence });
        Ok(ExecutionEmit::Delivered)
    }

    /// Emit a chunk of output. A chunk that does not fit is counted, exactly,
    /// and dropped; nothing ever waits.
    pub fn output(&self, state: &mut StreamState, stream: OutputStream, bytes: &[u8]) -> (r:
        ToolResult<ExecutionEmit>)
        requires
            old(state)@.consistent(),
        ensures
            final(state)@.consistent(),
            final(state)@ == old(state)@.after_output(
                stream,
                bytes@.len() as int,
                final(state)@.events.last().kind,
            ),
            match old(state)@.output_emit(bytes@.len() as int) {
                Some(emit) => r == Ok::<ExecutionEmit, ToolError>(emit),
                None => r is Err,
            },
            if bytes@.len() == 0 {
                r == Ok::<ExecutionEmit, ToolError>(ExecutionEmit::Delivered) && final(state)@
                    == old(state)@
            } else if old(state)@.phase != Phase::Started {
                r is Err && r->Err_0.is_denial(
                    protocol_refusal("output requires a prior started event"@),
                ) && final(state)@ == old(state)@
            } else if bytes@.len() > old(state)@.limits.max_output_chunk_bytes {
                r is Err && r->Err_0.is_denial(
                    protocol_refusal("output chunk exceeds the configured chunk bound"@),
                ) && final(state)@ == old(state)@
            } else if !old(state)@.fits(bytes@.len() as int) {
                r == Ok::<ExecutionEmit, ToolError>(ExecutionEmit::Dropped) && final(state)@
                    == old(state)@.with_drop(stream, bytes@.len() as int)
            } else if !old(state)@.with_notice().has_room() {
                r == Ok::<ExecutionEmit, ToolError>(ExecutionEmit::Dropped) && final(state)@
                    == old(state)@.with_notice().with_drop(stream, bytes@.len() as int)
            } else {
                r == Ok::<ExecutionEmit, ToolError>(ExecutionEmit::Delivered) && carries(
                    final(state)@.events.last().kind,
                    stream,
                    bytes@,
                ) && final(state)@ == old(state)@.with_notice().with_event(
                    final(state)@.events.last().kind,
                )
            },
    {
        if bytes.len() == 0 {
            return Ok(ExecutionEmit::Delivered);
        }
        if state.phase != Phase::Started {
            return Err(protocol("output requires a prior started event"));
        }
        if bytes.len() > state.limits.max_output_chunk_bytes() {
            return Err(protocol("output chunk exceeds the configured chunk bound"));
        }
        let most: usize = state.limits.max_queued_output_bytes();
        if state.events.len() >= state.limits.max_queued_events() || bytes.len() > most
            - state.queued_output_bytes {
            state.record_drop(stream, bytes.len());
            return Ok(ExecutionEmit::Dropped);
        }
        state.flush_truncation_notice();
        if state.events.len() >= state.limits.max_queued_events() {
            state.record_drop(stream, bytes.len());
            return Ok(ExecutionEmit::Dropped);
        }
        let kind: ExecutionEventKind = match stream {
            OutputStream::Stdout => ExecutionEventKind::Stdout(copy_bytes(bytes)),
            OutputStream::Stderr => ExecutionEventKind::Stderr(copy_bytes(bytes)),
        };
        state.push(kind);
        Ok(ExecutionEmit::Delivered)
    }

    /// Emit a refusal that happened during the execution.
    pub fn denial(&self, state: &mut StreamState, denial: Denial) -> (r: ToolResult<ExecutionEmit>)
        requires
            old(state)@.consistent(),
        ensures
            final(state)@.consistent(),
            final(state)@ == old(state)@.after_denial(denial),
            if old(state)@.phase == Phase::Terminal {
                r is Err && r->Err_0.is_denial(
                    protocol_refusal("no event may follow the terminal"@),
                ) && final(state)@ == old(state)@
            } else if !old(state)@.has_room() {
                r == Ok::<ExecutionEmit, ToolError>(ExecutionEmit::Dropped) && final(state)@ == (
                StreamView {
                    dropped: DroppedEvidence {
                        events: capped_sum(old(state)@.dropped.events, 1),
                        ..old(state)@.dropped
                    },
                    ..old(state)@
                })
            } else {
                r == Ok::<ExecutionEmit, ToolError>(ExecutionEmit::Delivered) && final(state)@
                    == old(state)@.with_event(ExecutionEventKind::Denial(denial))
            },
    {
        if state.phase == Phase::Terminal {
            return Err(protocol("no event may follow the terminal"));
        }
        if state.events.len() >= state.limits.max_queued_events() {
            state.dropped.events = add_capped(state.dropped.events, 1);
            assert(state@.pending() =~= old(state)@.pending());
            return Ok(ExecutionEmit::Dropped);
        }
        state.push(ExecutionEventKind::Denial(denial));
        Ok(ExecutionEmit::Delivered)
    }

    /// Publish the last event, once. An exit needs a process that started.
    /// Whatever was dropped and not yet reported is reported just before it.
    pub fn publish_terminal(&self, state: &mut StreamState, terminal: ExecutionTerminal) -> (r:
        ToolResult<()>)
        requires
            old(state)@.consistent(),
        ensures
            final(state)@.consistent(),
            final(state)@ == old(state)@.after_terminal(terminal),
            if old(state)@.phase == Phase::Terminal {
                r is Err && r->Err_0.is_denial(
                    protocol_refusal("terminal must be published exactly once"@),
                ) && final(state)@ == old(state)@
            } else if old(state)@.phase == Phase::Accepted && terminal is Exited {
                r is Err && r->Err_0.is_denial(
                    protocol_refusal("an exited terminal requires a started event"@),
                ) && final(state)@ == old(state)@
            } else {
                r is Ok && final(state)@ == old(state)@.with_terminal(terminal)
            },
    {
        if state.phase == Phase::Terminal {
            return Err(protocol("terminal must be published exactly once"));
        }
        if state.phase == Phase::Accepted && terminal.is_exited() {
            return Err(protocol("an exited terminal requires a started event"));
        }
        proof {
            lemma_with_terminal(state@, terminal);
        }
        state.phase = Phase::Terminal;
        if state.dropped != state.reported_dropped {
            let sequence: u64 = state.next_sequence;
            state.next_sequence = add_capped(sequence, 1);
            state.final_notice = Some(
                ExecutionEvent {
                    execution: state.id,
                    sequence,
                    kind: ExecutionEventKind::OutputTruncated(state.dropped),
                },
            );
        }
        state.reported_dropped = state.dropped;
        let sequence: u64 = state.next_sequence;
        state.next_sequence = add_capped(sequence, 1);
        let kind: ExecutionEventKind = match terminal {
            ExecutionTerminal::Exited(evidence) => ExecutionEventKind::Exited(evidence),
            ExecutionTerminal::Denied { denial } => ExecutionEventKind::Denied { denial },
            ExecutionTerminal::Failed { message } => ExecutionEventKind::Failed { message },
        };
        state.terminal = Some(ExecutionEvent { execution: state.id, sequence, kind });
        Ok(())
    }
}

/// The last event keeps the promises of a state.
pub proof fn lemma_with_terminal(s: StreamView, terminal: ExecutionTerminal)
    requires
        s.consistent(),
        s.phase != Phase::Terminal,
    ensures
        s.with_terminal(terminal).consistent(),
{
    let after = s.with_terminal(terminal);
    let due = s.dropped != s.reported_dropped;
    assert(s.pending() =~= s.events);
    let tail = if due {
        seq![after.final_notice->0, after.terminal->0]
    } else {
        seq![after.terminal->0]
    };
    assert(after.pending() =~= s.events + tail);
    assert forall|i: int| 0 <= i < after.pending().len() implies (
    #[trigger] after.pending()[i]).execution == after.id by {
        if i < s.events.len() {
            assert(after.pending()[i] == s.pending()[i]);
        }
    }
    if after.next_sequence < u64::MAX {
        assert forall|i: int| 0 <= i < after.pending().len() implies (
        #[trigger] after.pending()[i]).sequence == after.next_sequence - after.pending().len() + i by {
            if i < s.events.len() {
                assert(after.pending()[i] == s.pending()[i]);
            }
        }
    }
}

/// What a consumer finds when it asks for the next event.
#[derive(Debug, PartialEq, Eq)]
pub enum NextEvent {
    /// An event.
    Event(ExecutionEvent),
    /// Nothing yet: more is to come.
    Pending,
    /// The last event was given out.
    Ended,
}

/// What the controls of an execution do. Waiting gives every caller the same
/// record; abandoning leaves nothing detached.
pub trait ExecutionControl {
    /// Wait for the last record.
    fn wait(&self) -> ToolResult<ExecutionTerminal>;

    /// Ask the process tree to end, and end it by force after a grace period.
    fn cancel(&self) -> ToolResult<()>;

    /// End the process tree by force.
    fn kill(&self) -> ToolResult<()>;

    /// The consumer gave up its handle before the end.
    fn abandon(&self);
}

/// The consumer half of a stream.
#[derive(Debug)]
pub struct ExecutionHandle {
    id: ExecutionId,
    limits: ExecutionLimits,
    terminal_observed: bool,
}

impl ExecutionHandle {
    /// The number of the execution.
    pub closed spec fn spec_id(self) -> ExecutionId {
        self.id
    }

    /// The bounds of the stream.
    pub closed spec fn spec_limits(self) -> LimitsView {
        self.limits@
    }

    /// The last event was given out.
    pub closed spec fn observed(self) -> bool {
        self.terminal_observed
    }

    /// The number of the execution.
    pub fn id(&self) -> (r: ExecutionId)
        ensures
            r == self.spec_id(),
    {
        self.id
    }

    /// The bounds of the stream.
    pub fn limits(&self) -> (r: ExecutionLimits)
        ensures
            r@ == self.spec_limits(),
    {
        self.limits
    }

    /// The next event, in the order of the stream: queued events first, then
    /// the final notice, then the end.
    pub fn next_event(&mut self, state: &mut StreamState) -> (r: NextEvent)
        requires
            old(state)@.consistent(),
        ensures
            final(state)@.consistent(),
            final(self).spec_id() == old(self).spec_id(),
            final(self).spec_limits() == old(self).spec_limits(),
            if old(self).observed() {
                r is Ended && *final(self) == *old(self) && final(state)@ == old(state)@
            } else if old(state)@.pending().len() == 0 {
                r is Pending && *final(self) == *old(self) && final(state)@ == old(state)@
            } else {
                r == NextEvent::Event(old(state)@.pending()[0]) && final(state)@.pending()
                    == old(state)@.pending().subrange(1, old(state)@.pending().len() as int)
                    && final(self).observed() == old(state)@.pending()[0].kind.ends()
                    && final(state)@ == old(state)@.taken()
            },
    {
        if self.terminal_observed {
            return NextEvent::Ended;
        }
        proof {
            lemma_take(state@);
        }
        if let Some(event) = state.events.pop_front() {
            let freed: usize = event.kind.output_len();
            assert(freed <= state.queued_output_bytes);
            state.queued_output_bytes = state.queued_output_bytes - freed;
            assert(!event.kind.ends());
            return NextEvent::Event(event);
        }
        if let Some(event) = state.final_notice.take() {
            return NextEvent::Event(event);
        }
        if let Some(event) = state.terminal.take() {
            self.terminal_observed = true;
            return NextEvent::Event(event);
        }
        assert(old(state)@.pending() =~= Seq::empty());
        NextEvent::Pending
    }

    /// The next event, if there is one.
    pub fn try_next_event(&mut self, state: &mut StreamState) -> (r: Option<ExecutionEvent>)
        requires
            old(state)@.consistent(),
        ensures
            final(state)@.consistent(),
            final(self).spec_id() == old(self).spec_id(),
            final(self).spec_limits() == old(self).spec_limits(),
            if old(self).observed() || old(state)@.pending().len() == 0 {
                r is None && *final(self) == *old(self) && final(state)@ == old(state)@
            } else {
                r == Some(old(state)@.pending()[0]) && final(state)@.pending()
                    == old(state)@.pending().subrange(1, old(state)@.pending().len() as int)
                    && final(self).observed() == old(state)@.pending()[0].kind.ends()
                    && final(state)@ == old(state)@.taken()
            },
    {
        match self.next_event(state) {
            NextEvent::Event(event) => Some(event),
            _ => None,
        }
    }

    /// Wait for the last record, whether or not the events were consumed.
    pub fn wait<C: ExecutionControl>(&self, control: &C) -> (r: ToolResult<ExecutionTerminal>)
        ensures
            call_ensures(C::wait, (control,), r),
    {
        control.wait()
    }

    /// Ask the process tree to end.
    pub fn cancel<C: ExecutionControl>(&self, control: &C) -> (r: ToolResult<()>)
        ensures
            call_ensures(C::cancel, (control,), r),
    {
        control.cancel()
    }

    /// End the process tree by force.
    pub fn kill<C: ExecutionControl>(&self, control: &C) -> (r: ToolResult<()>)
        ensures
            call_ensures(C::kill, (control,), r),
    {
        control.kill()
    }

    /// Give the handle up. The result says whether the process tree has to be
    /// ended: not where the end was given out or already waits in its slot.
    pub fn release(self, state: &mut StreamState) -> (r: bool)
        requires
            old(state)@.consistent(),
        ensures
            final(state)@ == (StreamView { consumer_alive: false, ..old(state)@ }),
            final(state)@.consistent(),
            r == !(self.observed() || old(state)@.terminal is Some),
    {
        state.abandon();
        !self.terminal_observed && state.terminal.is_none()
    }
}

/// Taking the next event keeps the promises of a state.
pub proof fn lemma_take(s: StreamView)
    requires
        s.consistent(),
    ensures
        s.pending().len() > 0 ==> s.taken().consistent() && s.taken().pending() == s.pending().subrange(
            1,
            s.pending().len() as int,
        ) && s.pending()[0] == (if s.events.len() > 0 {
            s.events[0]
        } else if s.final_notice is Some {
            s.final_notice->0
        } else {
            s.terminal->0
        }),
        s.events.len() > 0 ==> 0 <= s.events[0].kind.output_bytes() <= s.queued_output_bytes,
        s.pending().len() == 0 ==> s.events.len() == 0 && s.final_notice is None
            && s.terminal is None,
{
    if s.events.len() > 0 {
        lemma_output_bytes_first(s.events);
        lemma_output_bytes_nonnegative(s.events.subrange(1, s.events.len() as int));
    }
    if s.pending().len() > 0 {
        let after = s.taken();
        assert(after.pending() =~= s.pending().subrange(1, s.pending().len() as int));
        assert forall|i: int| 0 <= i < after.events.len() implies !(
        #[trigger] after.events[i]).kind.ends() by {
            assert(after.events[i] == s.events[i + 1]);
        }
        assert forall|i: int| 0 <= i < after.pending().len() implies (
        #[trigger] after.pending()[i]).execution == after.id by {
            assert(after.pending()[i] == s.pending()[i + 1]);
        }
        if s.next_sequence < u64::MAX {
            assert forall|i: int| 0 <= i < after.pending().len() implies (
            #[trigger] after.pending()[i]).sequence == after.next_sequence - after.pending().len()
                + i by {
                assert(after.pending()[i] == s.pending()[i + 1]);
            }
        }
        if s.events.len() == 0 {
            assert(s.events =~= Seq::empty());
        }
    }
}

/// The two halves of a new stream, and the state they share.
pub fn execution_stream(id: ExecutionId, limits: ExecutionLimits) -> (r: (
    StreamState,
    ExecutionEventSink,
    ExecutionHandle,
))
    ensures
        r.0@ == StreamView::fresh(id, limits@),
        r.0@.consistent(),
        r.2.spec_id() == id,
        r.2.spec_limits() == limits@,
        !r.2.observed(),
{
    let _events: usize = limits.max_queued_events();
    let _bytes: usize = limits.max_queued_output_bytes();
    let none: DroppedEvidence = DroppedEvidence { stdout_bytes: 0, stderr_bytes: 0, events: 0 };
    let state = StreamState {
        id,
        limits,
        events: VecDeque::new(),
        queued_output_bytes: 0,
        dropped: none,
        reported_dropped: none,
        final_notice: None,
        terminal: None,
        next_sequence: 0,
        phase: Phase::Accepted,
        consumer_alive: true,
    };
    assert(state@.pending() =~= Seq::empty());
    (state, ExecutionEventSink, ExecutionHandle { id, limits, terminal_observed: false })
}

/// The numbers of the delivered events leave no gap: the event that is taken
/// carries the count of those delivered before it, and the count goes up by
/// one.
pub proof fn law_delivered_numbers_leave_no_gap(s: StreamView)
    requires
        s.consistent(),
        s.next_sequence < u64::MAX,
        s.pending().len() > 0,
    ensures
        s.pending()[0].sequence == s.delivered(),
        s.taken().delivered() == s.delivered() + 1,
{
    lemma_take(s);
}

/// The end comes last: while anything else is pending, the next event is not
/// the end.
pub proof fn law_the_end_comes_last(s: StreamView, i: int)
    requires
        s.consistent(),
        0 <= i < s.pending().len(),
        s.pending()[i].kind.ends(),
    ensures
        i == s.pending().len() - 1,
        s.phase == Phase::Terminal,
{
    if i < s.events.len() {
        assert(s.pending()[i] == s.events[i]);
    } else if s.final_notice is Some && i == s.events.len() {
        assert(s.pending()[i] == s.final_notice->0);
    }
}

/// Nothing is lost without a trace: a chunk that is not queued is counted, byte
/// for byte, on its own stream and on no other.
pub proof fn law_a_dropped_chunk_is_counted(d: DroppedEvidence, stream: OutputStream, len: int)
    requires
        0 <= len,
        d.stdout_bytes + len <= u64::MAX,
        d.stderr_bytes + len <= u64::MAX,
        d.events < u64::MAX,
    ensures
        with_dropped_chunk(d, stream, len).stdout_bytes == d.stdout_bytes + if stream
            == OutputStream::Stdout {
            len
        } else {
            0
        },
        with_dropped_chunk(d, stream, len).stderr_bytes == d.stderr_bytes + if stream
            == OutputStream::Stderr {
            len
        } else {
            0
        },
        with_dropped_chunk(d, stream, len).events == d.events + 1,
{
}

/// Whoever reads to the end is told what was dropped: before the end there is
/// a notice with the final totals, unless an earlier notice gave the same.
pub proof fn law_drops_are_reported_before_the_end(s: StreamView, terminal: ExecutionTerminal)
    requires
        s.consistent(),
        s.phase != Phase::Terminal,
    ensures
        s.with_terminal(terminal).reported_dropped == s.dropped,
        s.dropped != s.reported_dropped ==> ({
            let p = s.with_terminal(terminal).pending();
            p.len() >= 2 && p[p.len() - 2].kind == ExecutionEventKind::OutputTruncated(s.dropped)
        }),
        s.with_terminal(terminal).pending().last().kind == terminal_kind(terminal),
{
}

} // verus!
