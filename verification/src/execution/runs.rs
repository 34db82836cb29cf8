//! Whole runs of an execution: whatever producers, consumer and controls do to
//! it, in whatever order, from its beginning.

use std::sync::Arc;

use vstd::prelude::*;

use crate::envelope::Denial;
use crate::execution::contract::{
    terminal_kind, DroppedEvidence, ExecutionEvent, ExecutionEventKind, ExecutionId,
    ExecutionTerminal, FenceEvidence,
};
use crate::execution::control::first_record;
use crate::execution::limits::LimitsView;
use crate::execution::stream::{
    carries, lemma_pending_push, lemma_take, lemma_with_terminal, ExecutionEmit, OutputStream,
    Phase, StreamView,
};

verus! {

/// One call on the stream of an execution or on its controls.
pub ghost enum Move {
    /// A producer says that the request was accepted.
    Accepted,
    /// A producer says that a process tree runs.
    Started { pid: u32, fence: Arc<FenceEvidence> },
    /// A producer emits a chunk of output, which is queued as `kind` where it is
    /// queued.
    Output { stream: OutputStream, bytes: Seq<u8>, kind: ExecutionEventKind },
    /// A producer emits a refusal.
    Denial(Denial),
    /// The controls publish a final record.
    Publish(ExecutionTerminal),
    /// The consumer asks for the next event.
    Take,
    /// Someone waits for the final record.
    Wait,
}

/// A call of `output` that was not refused.
pub ghost struct Chunk {
    pub stream: OutputStream,
    pub bytes: Seq<u8>,
    pub emit: ExecutionEmit,
}

/// A run so far.
#[verifier::ext_equal]
pub ghost struct Run {
    /// The state of the stream.
    pub stream: StreamView,
    /// The consumer was given the last event.
    pub observed: bool,
    /// The events that the consumer was given, in order.
    pub given: Seq<ExecutionEvent>,
    /// The chunks that were passed in and not refused, in order.
    pub chunks: Seq<Chunk>,
    /// The final record, once there is one.
    pub record: Option<ExecutionTerminal>,
    /// What those were given who waited until there was a record, in order.
    pub waited: Seq<ExecutionTerminal>,
}

impl Run {
    /// The run after one more call.
    pub open spec fn after(self, m: Move) -> Run {
        match m {
            Move::Accepted => Run { stream: self.stream.after_accepted(), ..self },
            Move::Started { pid, fence } => Run {
                stream: self.stream.after_started(pid, fence),
                ..self
            },
            Move::Output { stream, bytes, kind } => Run {
                stream: self.stream.after_output(stream, bytes.len() as int, kind),
                chunks: match self.stream.output_emit(bytes.len() as int) {
                    Some(emit) => self.chunks.push(Chunk { stream, bytes, emit }),
                    None => self.chunks,
                },
                ..self
            },
            Move::Denial(denial) => Run { stream: self.stream.after_denial(denial), ..self },
            Move::Publish(terminal) => Run {
                stream: if self.record is Some {
                    self.stream
                } else {
                    self.stream.after_terminal(terminal)
                },
                record: first_record(self.record, terminal),
                ..self
            },
            Move::Take => if self.observed || self.stream.pending().len() == 0 {
                self
            } else {
                Run {
                    stream: self.stream.taken(),
                    observed: self.stream.pending()[0].kind.ends(),
                    given: self.given.push(self.stream.pending()[0]),
                    ..self
                }
            },
            Move::Wait => match self.record {
                Some(record) => Run { waited: self.waited.push(record), ..self },
                None => self,
            },
        }
    }

    /// The call can be made as it is described: a chunk that is queued is queued
    /// as it is.
    pub open spec fn allows(self, m: Move) -> bool {
        m matches Move::Output { stream, bytes, kind } ==> bytes.len() > 0
            && self.stream.output_emit(bytes.len() as int) == Some(ExecutionEmit::Delivered)
            ==> carries(kind, stream, bytes)
    }
}

/// The run of a new execution with these calls.
pub open spec fn ran(id: ExecutionId, limits: LimitsView, moves: Seq<Move>) -> Run
    decreases moves.len(),
{
    if moves.len() == 0 {
        Run {
            stream: StreamView::fresh(id, limits),
            observed: false,
            given: Seq::empty(),
            chunks: Seq::empty(),
            record: None,
            waited: Seq::empty(),
        }
    } else {
        ran(id, limits, moves.drop_last()).after(moves.last())
    }
}

/// The calls can be made, one after the other, on a new execution.
pub open spec fn possible(id: ExecutionId, limits: LimitsView, moves: Seq<Move>) -> bool
    decreases moves.len(),
{
    moves.len() > 0 ==> possible(id, limits, moves.drop_last()) && ran(
        id,
        limits,
        moves.drop_last(),
    ).allows(moves.last())
}

/// The output of one stream that some events carry, joined in order.
pub open spec fn joined_output(events: Seq<ExecutionEvent>, stream: OutputStream) -> Seq<u8>
    decreases events.len(),
{
    if events.len() == 0 {
        Seq::empty()
    } else {
        joined_output(events.drop_last(), stream) + carried(events.last().kind, stream)
    }
}

/// The output of one stream that an event carries.
pub open spec fn carried(kind: ExecutionEventKind, stream: OutputStream) -> Seq<u8> {
    match (kind, stream) {
        (ExecutionEventKind::Stdout(bytes), OutputStream::Stdout) => bytes@,
        (ExecutionEventKind::Stderr(bytes), OutputStream::Stderr) => bytes@,
        _ => Seq::empty(),
    }
}

/// The delivered chunks of one stream, joined in order.
pub open spec fn delivered_bytes(chunks: Seq<Chunk>, stream: OutputStream) -> Seq<u8>
    decreases chunks.len(),
{
    if chunks.len() == 0 {
        Seq::empty()
    } else {
        let rest = delivered_bytes(chunks.drop_last(), stream);
        let chunk = chunks.last();
        if chunk.stream == stream && chunk.emit == ExecutionEmit::Delivered {
            rest + chunk.bytes
        } else {
            rest
        }
    }
}

/// The number of bytes of the dropped chunks of one stream.
pub open spec fn dropped_len(chunks: Seq<Chunk>, stream: OutputStream) -> int
    decreases chunks.len(),
{
    if chunks.len() == 0 {
        0
    } else {
        let rest = dropped_len(chunks.drop_last(), stream);
        let chunk = chunks.last();
        if chunk.stream == stream && chunk.emit == ExecutionEmit::Dropped {
            rest + chunk.bytes.len()
        } else {
            rest
        }
    }
}

/// The number of bytes of all chunks of one stream.
pub open spec fn passed_len(chunks: Seq<Chunk>, stream: OutputStream) -> int
    decreases chunks.len(),
{
    if chunks.len() == 0 {
        0
    } else {
        passed_len(chunks.drop_last(), stream) + if chunks.last().stream == stream {
            chunks.last().bytes.len() as int
        } else {
            0
        }
    }
}

/// The dropped bytes of one stream.
pub open spec fn dropped_on(dropped: DroppedEvidence, stream: OutputStream) -> int {
    match stream {
        OutputStream::Stdout => dropped.stdout_bytes as int,
        OutputStream::Stderr => dropped.stderr_bytes as int,
    }
}

/// A notice, where one is due and fits, keeps the promises of a state.
proof fn lemma_notice(s: StreamView)
    requires
        s.consistent(),
        s.phase != Phase::Terminal,
    ensures
        s.with_notice().consistent(),
        s.with_notice().phase == s.phase,
        s.with_notice().queued_output_bytes == s.queued_output_bytes,
        s.with_notice().next_sequence >= s.next_sequence,
        s.with_notice().delivered() == s.delivered() || s.next_sequence == u64::MAX,
{
    if s.dropped != s.reported_dropped && s.has_room() {
        let told = StreamView { reported_dropped: s.dropped, ..s };
        assert(told.pending() =~= s.pending());
        lemma_pending_push(told, ExecutionEventKind::OutputTruncated(s.dropped));
    }
}

/// What holds of the stream after any call of a producer.
spec fn goes_on(s: StreamView, after: StreamView) -> bool {
    &&& after.consistent()
    &&& after.id == s.id
    &&& after.limits == s.limits
    &&& after.next_sequence >= s.next_sequence
    &&& after.next_sequence < u64::MAX ==> after.delivered() == s.delivered()
}

proof fn lemma_dropped_goes_on(s: StreamView, dropped: DroppedEvidence)
    requires
        s.consistent(),
    ensures
        goes_on(s, StreamView { dropped, ..s }),
{
    assert(StreamView { dropped, ..s }.pending() =~= s.pending());
}

proof fn lemma_start_goes_on(s: StreamView, pid: u32, fence: Arc<FenceEvidence>)
    requires
        s.consistent(),
    ensures
        goes_on(s, s.after_started(pid, fence)),
{
    if s.phase == Phase::Accepted {
        let begun = StreamView { phase: Phase::Started, ..s };
        assert(begun.pending() =~= s.pending());
        lemma_pending_push(begun, ExecutionEventKind::Started { pid, fence });
    }
}

proof fn lemma_output_goes_on(
    s: StreamView,
    stream: OutputStream,
    bytes: Seq<u8>,
    kind: ExecutionEventKind,
)
    requires
        s.consistent(),
        bytes.len() > 0 && s.output_emit(bytes.len() as int) == Some(ExecutionEmit::Delivered)
            ==> carries(kind, stream, bytes),
    ensures
        goes_on(s, s.after_output(stream, bytes.len() as int, kind)),
{
    let len = bytes.len() as int;
    if len > 0 && s.output_emit(len) is Some {
        lemma_notice(s);
        let told = s.with_notice();
        if !s.fits(len) {
            lemma_dropped_goes_on(s, s.with_drop(stream, len).dropped);
        } else if !told.has_room() {
            lemma_dropped_goes_on(told, told.with_drop(stream, len).dropped);
        } else {
            assert(kind.output_bytes() == len);
            lemma_pending_push(told, kind);
        }
    }
}

proof fn lemma_terminal_goes_on(s: StreamView, terminal: ExecutionTerminal)
    requires
        s.consistent(),
    ensures
        goes_on(s, s.after_terminal(terminal)),
{
    if s.phase != Phase::Terminal && !(s.phase == Phase::Accepted && terminal is Exited) {
        lemma_with_terminal(s, terminal);
        let after = s.with_terminal(terminal);
        assert(s.pending() =~= s.events);
        assert(after.pending().len() == s.events.len() + (if s.dropped != s.reported_dropped {
            2int
        } else {
            1
        }));
    }
}

proof fn lemma_stream_goes_on(r: Run, m: Move)
    requires
        r.stream.consistent(),
        r.allows(m),
        !(m is Take),
    ensures
        goes_on(r.stream, r.after(m).stream),
{
    let s = r.stream;
    match m {
        Move::Accepted => {
            if s.phase == Phase::Accepted && s.next_sequence == 0 {
                lemma_pending_push(s, ExecutionEventKind::Accepted);
            }
        },
        Move::Started { pid, fence } => {
            lemma_start_goes_on(s, pid, fence);
        },
        Move::Output { stream, bytes, kind } => {
            lemma_output_goes_on(s, stream, bytes, kind);
        },
        Move::Denial(denial) => {
            if s.phase != Phase::Terminal {
                if !s.has_room() {
                    lemma_dropped_goes_on(s, s.after_denial(denial).dropped);
                } else {
                    lemma_pending_push(s, ExecutionEventKind::Denial(denial));
                }
            }
        },
        Move::Publish(terminal) => {
            lemma_terminal_goes_on(s, terminal);
        },
        _ => {},
    }
}

/// What the consumer of a run was given is in order and numbered.
spec fn in_sequence(r: Run) -> bool {
    &&& r.stream.consistent()
    &&& r.stream.next_sequence < u64::MAX ==> r.stream.delivered() == r.given.len()
    &&& forall|i: int|
        0 <= i < r.given.len() ==> (#[trigger] r.given[i]).execution == r.stream.id
    &&& r.stream.next_sequence < u64::MAX ==> forall|i: int|
        0 <= i < r.given.len() ==> (#[trigger] r.given[i]).sequence == i
    &&& forall|i: int|
        0 <= i < r.given.len() - 1 ==> !(#[trigger] r.given[i]).kind.ends()
    &&& r.observed == (r.given.len() > 0 && r.given.last().kind.ends())
}

proof fn lemma_move_keeps_sequence(r: Run, m: Move)
    requires
        in_sequence(r),
        r.allows(m),
    ensures
        in_sequence(r.after(m)),
        r.after(m).stream.id == r.stream.id,
        r.after(m).stream.limits == r.stream.limits,
{
    let next = r.after(m);
    if m is Take {
        lemma_take(r.stream);
        if !r.observed && r.stream.pending().len() > 0 {
            let event = r.stream.pending()[0];
            assert forall|i: int| 0 <= i < next.given.len() implies (
            #[trigger] next.given[i]).execution == next.stream.id by {
                if i < r.given.len() {
                    assert(next.given[i] == r.given[i]);
                } else {
                    assert(next.given[i] == event);
                }
            }
            if next.stream.next_sequence < u64::MAX {
                assert(event.sequence == r.stream.delivered());
                assert forall|i: int| 0 <= i < next.given.len() implies (
                #[trigger] next.given[i]).sequence == i by {
                    if i < r.given.len() {
                        assert(next.given[i] == r.given[i]);
                    }
                }
            }
            assert forall|i: int| 0 <= i < next.given.len() - 1 implies !(
            #[trigger] next.given[i]).kind.ends() by {
                assert(next.given[i] == r.given[i]);
            }
        }
    } else {
        lemma_stream_goes_on(r, m);
    }
}

proof fn lemma_run_in_sequence(id: ExecutionId, limits: LimitsView, moves: Seq<Move>)
    requires
        limits.refusal() is None,
        possible(id, limits, moves),
    ensures
        in_sequence(ran(id, limits, moves)),
        ran(id, limits, moves).stream.id == id,
        ran(id, limits, moves).stream.limits == limits,
    decreases moves.len(),
{
    if moves.len() == 0 {
        assert(StreamView::fresh(id, limits).pending() =~= Seq::empty());
    } else {
        lemma_run_in_sequence(id, limits, moves.drop_last());
        lemma_move_keeps_sequence(ran(id, limits, moves.drop_last()), moves.last());
    }
}

/// Over a whole run of a new execution, the events that the consumer is given
/// are those of this execution, carry the numbers from zero on without a gap,
/// and none but the last is an end.
pub proof fn law_events_are_numbered_and_the_end_is_last(
    id: ExecutionId,
    limits: LimitsView,
    moves: Seq<Move>,
    i: int,
)
    requires
        limits.refusal() is None,
        possible(id, limits, moves),
        ran(id, limits, moves).stream.next_sequence < u64::MAX,
        0 <= i < ran(id, limits, moves).given.len(),
    ensures
        ran(id, limits, moves).given[i].execution == id,
        ran(id, limits, moves).given[i].sequence == i,
        ran(id, limits, moves).given[i].kind.ends() ==> i == ran(id, limits, moves).given.len() - 1
            && ran(id, limits, moves).observed,
{
    lemma_run_in_sequence(id, limits, moves);
}

/// Once the consumer was given the end, it is given nothing more, whatever
/// happens.
pub proof fn law_nothing_follows_the_end(
    id: ExecutionId,
    limits: LimitsView,
    moves: Seq<Move>,
    more: Seq<Move>,
)
    requires
        ran(id, limits, moves).observed,
    ensures
        ran(id, limits, moves + more).observed,
        ran(id, limits, moves + more).given == ran(id, limits, moves).given,
    decreases more.len(),
{
    if more.len() == 0 {
        assert(moves + more =~= moves);
    } else {
        assert((moves + more).drop_last() =~= moves + more.drop_last());
        law_nothing_follows_the_end(id, limits, moves, more.drop_last());
    }
}

proof fn lemma_joined_push(events: Seq<ExecutionEvent>, e: ExecutionEvent, stream: OutputStream)
    ensures
        joined_output(events.push(e), stream) == joined_output(events, stream) + carried(
            e.kind,
            stream,
        ),
{
    assert(events.push(e).drop_last() =~= events);
}

/// What the consumer was given and is still to take from the queue.
spec fn shown(r: Run) -> Seq<ExecutionEvent> {
    r.given + r.stream.events
}

/// The output of a run is accounted for.
spec fn accounted(r: Run, stream: OutputStream) -> bool {
    &&& joined_output(shown(r), stream) == delivered_bytes(r.chunks, stream)
    &&& passed_len(r.chunks, stream) <= u64::MAX ==> dropped_on(r.stream.dropped, stream)
        == dropped_len(r.chunks, stream)
    &&& delivered_bytes(r.chunks, stream).len() + dropped_len(r.chunks, stream) == passed_len(
        r.chunks,
        stream,
    )
    &&& 0 <= dropped_len(r.chunks, stream) <= passed_len(r.chunks, stream)
}

/// A queued event without output changes nothing in the output.
proof fn lemma_silent_event(r: Run, e: ExecutionEvent, stream: OutputStream)
    requires
        carried(e.kind, stream).len() == 0,
    ensures
        joined_output(r.given + r.stream.events.push(e), stream) == joined_output(
            shown(r),
            stream,
        ),
{
    assert(r.given + r.stream.events.push(e) =~= shown(r).push(e));
    lemma_joined_push(shown(r), e, stream);
    assert(joined_output(shown(r), stream) + carried(e.kind, stream) =~= joined_output(
        shown(r),
        stream,
    ));
}

proof fn lemma_notice_is_silent(r: Run, stream: OutputStream)
    ensures
        joined_output(r.given + r.stream.with_notice().events, stream) == joined_output(
            shown(r),
            stream,
        ),
        r.stream.with_notice().dropped == r.stream.dropped,
{
    let s = r.stream;
    if s.dropped != s.reported_dropped && s.has_room() {
        let e = ExecutionEvent {
            execution: s.id,
            sequence: s.next_sequence,
            kind: ExecutionEventKind::OutputTruncated(s.dropped),
        };
        lemma_silent_event(r, e, stream);
    }
}

proof fn lemma_output_is_accounted(
    r: Run,
    on: OutputStream,
    bytes: Seq<u8>,
    kind: ExecutionEventKind,
    stream: OutputStream,
)
    requires
        r.stream.consistent(),
        accounted(r, stream),
        r.allows(Move::Output { stream: on, bytes, kind }),
    ensures
        accounted(r.after(Move::Output { stream: on, bytes, kind }), stream),
{
    let next = r.after(Move::Output { stream: on, bytes, kind });
    let len = bytes.len() as int;
    let s = r.stream;
    if let Some(emit) = s.output_emit(len) {
        assert(next.chunks.drop_last() =~= r.chunks);
        assert(next.chunks.last() == Chunk { stream: on, bytes, emit });
        if len == 0 {
            assert(delivered_bytes(r.chunks, stream) + bytes =~= delivered_bytes(
                r.chunks,
                stream,
            ));
        } else if emit == ExecutionEmit::Dropped {
            lemma_notice_is_silent(r, stream);
        } else {
            lemma_notice_is_silent(r, stream);
            let told = s.with_notice();
            let e = ExecutionEvent { execution: told.id, sequence: told.next_sequence, kind };
            assert(shown(next) =~= (r.given + told.events).push(e));
            lemma_joined_push(r.given + told.events, e, stream);
            if on == stream {
                assert(carried(kind, stream) == bytes);
            } else {
                assert(carried(kind, stream).len() == 0);
                assert(joined_output(shown(r), stream) + carried(kind, stream) =~= joined_output(
                    shown(r),
                    stream,
                ));
            }
        }
    }
}

proof fn lemma_take_is_accounted(r: Run, stream: OutputStream)
    requires
        r.stream.consistent(),
        accounted(r, stream),
    ensures
        accounted(r.after(Move::Take), stream),
{
    let next = r.after(Move::Take);
    lemma_take(r.stream);
    if !r.observed && r.stream.pending().len() > 0 {
        let e = r.stream.pending()[0];
        if r.stream.events.len() > 0 {
            assert(shown(next) =~= shown(r));
        } else {
            assert(shown(r) =~= r.given);
            assert(shown(next) =~= r.given.push(e));
            lemma_joined_push(r.given, e, stream);
            assert(e.kind.output_bytes() == 0);
            assert(joined_output(r.given, stream) + carried(e.kind, stream) =~= joined_output(
                r.given,
                stream,
            ));
        }
    }
}

proof fn lemma_move_is_accounted(r: Run, m: Move, stream: OutputStream)
    requires
        r.stream.consistent(),
        accounted(r, stream),
        r.allows(m),
    ensures
        accounted(r.after(m), stream),
{
    let s = r.stream;
    match m {
        Move::Output { stream: on, bytes, kind } => {
            lemma_output_is_accounted(r, on, bytes, kind, stream);
        },
        Move::Take => {
            lemma_take_is_accounted(r, stream);
        },
        Move::Accepted => {
            let kind = ExecutionEventKind::Accepted;
            lemma_silent_event(
                r,
                ExecutionEvent { execution: s.id, sequence: s.next_sequence, kind },
                stream,
            );
        },
        Move::Started { pid, fence } => {
            let kind = ExecutionEventKind::Started { pid, fence };
            lemma_silent_event(
                r,
                ExecutionEvent { execution: s.id, sequence: s.next_sequence, kind },
                stream,
            );
        },
        Move::Denial(denial) => {
            let kind = ExecutionEventKind::Denial(denial);
            lemma_silent_event(
                r,
                ExecutionEvent { execution: s.id, sequence: s.next_sequence, kind },
                stream,
            );
        },
        _ => {},
    }
}

/// Over a whole run of a new execution, the output of each stream is accounted
/// for to the byte: what the events carry that the consumer was given or that
/// are queued is the delivered chunks, joined in order; the dropped bytes are
/// those of the dropped chunks; and there are no others. The queue never holds
/// more output than its bound.
pub proof fn law_every_byte_is_delivered_or_counted(
    id: ExecutionId,
    limits: LimitsView,
    moves: Seq<Move>,
    stream: OutputStream,
)
    requires
        limits.refusal() is None,
        possible(id, limits, moves),
    ensures
        ({
            let run = ran(id, limits, moves);
            &&& joined_output(run.given + run.stream.events, stream) == delivered_bytes(
                run.chunks,
                stream,
            )
            &&& passed_len(run.chunks, stream) <= u64::MAX ==> dropped_on(
                run.stream.dropped,
                stream,
            ) == dropped_len(run.chunks, stream)
            &&& delivered_bytes(run.chunks, stream).len() + dropped_len(run.chunks, stream)
                == passed_len(run.chunks, stream)
            &&& run.stream.queued_output_bytes <= limits.max_queued_output_bytes
        }),
{
    lemma_run_accounted(id, limits, moves, stream);
    lemma_run_in_sequence(id, limits, moves);
}

proof fn lemma_run_accounted(
    id: ExecutionId,
    limits: LimitsView,
    moves: Seq<Move>,
    stream: OutputStream,
)
    requires
        limits.refusal() is None,
        possible(id, limits, moves),
    ensures
        accounted(ran(id, limits, moves), stream),
    decreases moves.len(),
{
    if moves.len() == 0 {
        assert(shown(ran(id, limits, moves)) =~= Seq::empty());
    } else {
        let before = moves.drop_last();
        lemma_run_accounted(id, limits, before, stream);
        lemma_run_in_sequence(id, limits, before);
        lemma_move_is_accounted(ran(id, limits, before), moves.last(), stream);
    }
}

/// The end of a run, once its stream has one: the last event that the consumer
/// was given, or the one in its slot.
pub open spec fn end_of(r: Run) -> Option<ExecutionEvent> {
    if r.observed {
        Some(r.given.last())
    } else {
        r.stream.terminal
    }
}

/// The record of a run is the end of its stream and what is waited for.
spec fn one_record(r: Run) -> bool {
    &&& forall|i: int|
        0 <= i < r.waited.len() ==> r.record == Some(#[trigger] r.waited[i])
    &&& r.stream.phase == Phase::Terminal ==> (r.record matches Some(record) && (end_of(
        r,
    ) matches Some(e) && e.kind == terminal_kind(record)))
    &&& r.stream.phase != Phase::Terminal ==> end_of(r) is None && (r.record is None
        || r.record->0 is Exited)
}

proof fn lemma_move_keeps_record(r: Run, m: Move)
    requires
        in_sequence(r),
        one_record(r),
        r.allows(m),
    ensures
        one_record(r.after(m)),
        r.record is Some ==> r.after(m).record == r.record,
{
    let next = r.after(m);
    let s = r.stream;
    match m {
        Move::Take => {
            lemma_take(s);
            if !r.observed && s.pending().len() > 0 {
                assert(next.given.last() == s.pending()[0]);
                if s.events.len() > 0 {
                    assert(!s.events[0].kind.ends());
                    assert(!next.observed);
                } else if s.final_notice is Some {
                    assert(!next.observed);
                } else {
                    assert(next.observed);
                    assert(s.phase == Phase::Terminal);
                }
                assert(next.waited == r.waited && next.record == r.record);
                assert(end_of(next) == end_of(r));
            }
        },
        Move::Wait => {
            if let Some(record) = r.record {
                assert forall|i: int| 0 <= i < next.waited.len() implies next.record == Some(
                    #[trigger] next.waited[i],
                ) by {
                    if i < r.waited.len() {
                        assert(next.waited[i] == r.waited[i]);
                    }
                }
            }
        },
        _ => {},
    }
}

proof fn lemma_run_has_one_record(id: ExecutionId, limits: LimitsView, moves: Seq<Move>)
    requires
        limits.refusal() is None,
        possible(id, limits, moves),
    ensures
        one_record(ran(id, limits, moves)),
    decreases moves.len(),
{
    if moves.len() > 0 {
        let before = moves.drop_last();
        lemma_run_has_one_record(id, limits, before);
        lemma_run_in_sequence(id, limits, before);
        lemma_move_keeps_record(ran(id, limits, before), moves.last());
    }
}

/// Whoever waits, and however often, before or after events are consumed, is
/// given one and the same record, and it is the end of the stream.
pub proof fn law_every_wait_gives_the_same_record(
    id: ExecutionId,
    limits: LimitsView,
    moves: Seq<Move>,
    i: int,
    j: int,
)
    requires
        limits.refusal() is None,
        possible(id, limits, moves),
        0 <= i < ran(id, limits, moves).waited.len(),
        0 <= j < ran(id, limits, moves).waited.len(),
    ensures
        ran(id, limits, moves).waited[i] == ran(id, limits, moves).waited[j],
        end_of(ran(id, limits, moves)) matches Some(e) ==> e.kind == terminal_kind(
            ran(id, limits, moves).waited[i],
        ),
        !(ran(id, limits, moves).waited[i] is Exited) ==> end_of(ran(id, limits, moves)) is Some,
{
    let run = ran(id, limits, moves);
    lemma_run_has_one_record(id, limits, moves);
    lemma_run_in_sequence(id, limits, moves);
    assert(run.record == Some(run.waited[i]));
    assert(run.record == Some(run.waited[j]));
}

/// Waiting changes nothing but who was told: no event is consumed by it.
pub proof fn law_waiting_consumes_no_event(r: Run)
    ensures
        r.after(Move::Wait).stream == r.stream,
        r.after(Move::Wait).given == r.given,
        r.after(Move::Wait).record == r.record,
{
}

} // verus!
