//! The life of an execution: its bounds, its stream, its controls and its end.
//!
//! The process side is scripted: a test plays the child, the drainers and the
//! reaper, and reads the stream as a consumer would.

use std::sync::Arc;

use agent_bridle_core::{
    AdmittedFenceId, ByteField, CancelPlan, Denial, DenialKind, DrainEvent, DroppedEvidence,
    ExecutionControl, ExecutionEmit, ExecutionEvent, ExecutionEventKind, ExecutionHandle,
    ExecutionId, ExecutionLimits, ExecutionRequest, ExecutionStdin, ExecutionTerminal,
    ExitDisposition, FenceEvidence, Grace, LocalControl, LocalExecution, LocalExecutionBackend,
    LocalTreeContainment, MAX_ARGV_ENTRIES, MAX_ARG_BYTES, MAX_ENV_ENTRIES, MAX_GRACE_SECS,
    MAX_OUTPUT_CHUNK_BYTES_CEILING, MAX_QUEUED_EVENTS_CEILING, MAX_QUEUED_OUTPUT_BYTES_CEILING,
    MAX_STDIN_BYTES_CEILING, NextEvent, OutputStream, Platform, ProxyLedger, ReapEvent, ReapStep,
    Reaping, SandboxKind, SandboxPolicy, SignalOrder, ToolError, ToolResult, TreeSignal,
    TreeState, check_bytes, check_message, compose_terminal, execution_stream, fence_id_of,
    keep_draining, local_tree_containment, push_bounded_argument, push_bounded_byte,
    push_bounded_variable, signal_target,
};

fn reason(error: ToolError) -> String {
    let ToolError::Denied { reason } = error else {
        panic!("expected a denial")
    };
    reason
}

// ── Bounds and requests ─────────────────────────────────────────────────────

#[test]
fn absurd_and_overflowing_limits_are_refused() {
    assert!(
        ExecutionLimits::new(
            MAX_QUEUED_EVENTS_CEILING + 1,
            4096,
            256,
            Grace::from_secs(1),
            Grace::from_secs(1)
        )
        .is_err(),
        "an above-ceiling event bound must be refused, not clamped"
    );
    assert!(ExecutionLimits::new(
        16,
        MAX_QUEUED_OUTPUT_BYTES_CEILING + 1,
        256,
        Grace::from_secs(1),
        Grace::from_secs(1)
    )
    .is_err());
    assert!(ExecutionLimits::new(
        16,
        4096,
        MAX_OUTPUT_CHUNK_BYTES_CEILING + 1,
        Grace::from_secs(1),
        Grace::from_secs(1)
    )
    .is_err());
    assert!(
        ExecutionLimits::new(0, 4096, 256, Grace::from_secs(1), Grace::from_secs(1)).is_err(),
        "a zero bound is not a bound"
    );
    assert!(
        ExecutionLimits::new(
            16,
            4096,
            256,
            Grace::from_secs(10_000),
            Grace::from_secs(1)
        )
        .is_err(),
        "an unbounded grace period must be refused"
    );
    assert!(ExecutionLimits::new(
        MAX_QUEUED_EVENTS_CEILING,
        MAX_QUEUED_OUTPUT_BYTES_CEILING,
        MAX_OUTPUT_CHUNK_BYTES_CEILING,
        Grace::from_secs(1),
        Grace::from_secs(1)
    )
    .is_ok());
}

#[test]
fn a_grace_period_may_be_as_long_as_the_ceiling() {
    let at = Grace::from_secs(MAX_GRACE_SECS);
    assert!(!at.exceeds_ceiling());
    assert!(ExecutionLimits::new(16, 4096, 256, at, at).is_ok());
    assert!(Grace::from_secs(MAX_GRACE_SECS + 1).exceeds_ceiling());
    assert!(Grace::from_millis(MAX_GRACE_SECS * 1000 + 1).exceeds_ceiling());
    assert_eq!(Grace::from_millis(1500).as_millis(), 1500);
    assert_eq!(Grace::from_secs(2).as_millis(), 2000);
}

#[test]
fn a_zero_grace_period_is_no_bound() {
    let some = Grace::from_secs(1);
    let none = Grace::from_secs(0);
    assert!(none.is_zero());
    assert!(!Grace { secs: 0, nanos: 1 }.is_zero());
    assert_eq!(
        reason(ExecutionLimits::new(16, 4096, 256, none, some).unwrap_err()),
        "cancel_grace must be greater than zero"
    );
    assert_eq!(
        reason(ExecutionLimits::new(16, 4096, 256, some, none).unwrap_err()),
        "reap_grace must be greater than zero"
    );
    assert!(ExecutionLimits::new(16, 4096, 256, Grace { secs: 0, nanos: 1 }, some).is_ok());
    let mut raw = ExecutionLimits::default().to_raw();
    raw.reap_grace_ms = 0;
    assert_eq!(
        ExecutionLimits::from_raw(raw).unwrap_err(),
        "denied: reap_grace must be greater than zero"
    );
}

#[test]
fn limits_survive_the_exchange_form() {
    let limits = ExecutionLimits::default();
    let raw = limits.to_raw();
    let back = ExecutionLimits::from_raw(raw).expect("valid limits stay valid");
    assert_eq!(back.max_queued_events(), limits.max_queued_events());
    assert_eq!(back.max_queued_output_bytes(), limits.max_queued_output_bytes());
    assert_eq!(back.max_output_chunk_bytes(), limits.max_output_chunk_bytes());
    assert_eq!(back.cancel_grace(), limits.cancel_grace());
    assert_eq!(back.reap_grace(), limits.reap_grace());

    let mut forged = limits.to_raw();
    forged.max_queued_events = MAX_QUEUED_EVENTS_CEILING + 1;
    assert!(ExecutionLimits::from_raw(forged).unwrap_err().starts_with("denied: "));
}

#[test]
fn every_admitted_grace_survives_the_exchange_form() {
    for nanos in [1, 999_999, 500_000, 1_500_000, 1_000_000, 999_999_999] {
        for secs in [0, 1, 599] {
            let cancel = Grace { secs, nanos };
            let reap = Grace::from_parts(2, 345_678);
            let limits = ExecutionLimits::new(16, 4096, 256, cancel, reap).expect("admitted");
            let back = ExecutionLimits::from_raw(limits.to_raw()).expect("read back");
            assert_eq!(back, limits);
        }
    }
    let raw = ExecutionLimits::new(
        16,
        4096,
        256,
        Grace { secs: 0, nanos: 500_000 },
        Grace { secs: 0, nanos: 1_500_000 },
    )
    .expect("admitted")
    .to_raw();
    assert_eq!((raw.cancel_grace_ms, raw.cancel_grace_rest_nanos), (0, 500_000));
    assert_eq!((raw.reap_grace_ms, raw.reap_grace_rest_nanos), (1, 500_000));

    let mut forged = raw;
    forged.cancel_grace_rest_nanos = 1_000_000;
    assert_eq!(
        ExecutionLimits::from_raw(forged).unwrap_err(),
        "denied: cancel_grace_rest_nanos must be less than a millisecond"
    );
    let mut forged = raw;
    forged.reap_grace_rest_nanos = u32::MAX;
    assert_eq!(
        ExecutionLimits::from_raw(forged).unwrap_err(),
        "denied: reap_grace_rest_nanos must be less than a millisecond"
    );
}

#[test]
fn oversized_requests_are_refused_before_any_work() {
    let mut request = ExecutionRequest::new("x".to_string());
    request.argv = vec!["a".to_string(); MAX_ARGV_ENTRIES + 1];
    assert!(request.validate().is_err(), "argv count bound");

    let mut request = ExecutionRequest::new("x".to_string());
    request.env = vec![("k".to_string(), "v".to_string()); MAX_ENV_ENTRIES + 1];
    assert!(request.validate().is_err(), "env count bound");

    let mut request = ExecutionRequest::new("x".to_string());
    request.stdin = ExecutionStdin::Bytes(vec![0; MAX_STDIN_BYTES_CEILING + 1]);
    assert!(request.validate().is_err(), "stdin bound");

    assert!(
        ExecutionRequest::new("".to_string()).validate().is_err(),
        "an empty executable is not a request"
    );
    let long = "a".repeat(MAX_ARG_BYTES + 1);
    assert!(ExecutionRequest::new("x".to_string()).arg(long).validate().is_err());
}

#[test]
fn an_oversized_request_starts_no_stream_and_takes_no_number() {
    let mut ids = 41;
    let refused = LocalExecutionBackend::new().start(&mut ids, &ExecutionRequest::new(String::new()));
    assert!(refused.is_err());
    assert_eq!(ids, 41);
    let (run, handle) = LocalExecutionBackend::new()
        .start(&mut ids, &ExecutionRequest::new("x".to_string()))
        .expect("start");
    assert_eq!(handle.id(), ExecutionId(41));
    assert_eq!(handle.id().message(), "exec-41");
    assert_eq!(ids, 42);
    assert!(run.control.wait().is_none());
}

#[test]
fn a_request_is_built_up_in_order() {
    let request = ExecutionRequest::new("/bin/echo".to_string())
        .arg("a".to_string())
        .args(vec!["b".to_string(), "c".to_string()])
        .cwd("/work".to_string())
        .env("K".to_string(), "V".to_string())
        .stdin(ExecutionStdin::Bytes(b"in".to_vec()));
    assert_eq!(request.executable, "/bin/echo");
    assert_eq!(request.argv, vec!["a", "b", "c"]);
    assert_eq!(request.cwd, Some("/work".to_string()));
    assert_eq!(request.env, vec![("K".to_string(), "V".to_string())]);
    assert_eq!(request.stdin, ExecutionStdin::Bytes(b"in".to_vec()));
    assert!(request.validate().is_ok());
    assert_eq!(ExecutionStdin::default(), ExecutionStdin::Null);
}

#[test]
fn lists_that_are_read_in_stop_at_their_bounds() {
    let mut argv = vec!["a".to_string(); MAX_ARGV_ENTRIES - 1];
    assert!(push_bounded_argument(&mut argv, "last".to_string()).is_ok());
    assert_eq!(
        push_bounded_argument(&mut argv, "one too many".to_string()).unwrap_err(),
        "argv exceeds the 4096-entry bound"
    );
    assert_eq!(argv.len(), MAX_ARGV_ENTRIES);

    let mut argv = Vec::new();
    assert_eq!(
        push_bounded_argument(&mut argv, "a".repeat(MAX_ARG_BYTES + 1)).unwrap_err(),
        "argv entry exceeds the 131072-byte bound"
    );
    assert!(push_bounded_argument(&mut argv, "a".repeat(MAX_ARG_BYTES)).is_ok());

    let mut env = Vec::new();
    assert!(push_bounded_variable(&mut env, "K".to_string(), "V".to_string()).is_ok());
    assert_eq!(
        push_bounded_variable(&mut env, "K".to_string(), "v".repeat(MAX_ARG_BYTES + 1)).unwrap_err(),
        "env entry exceeds the 131072-byte bound"
    );
    let mut env = vec![("k".to_string(), "v".to_string()); MAX_ENV_ENTRIES];
    assert_eq!(
        push_bounded_variable(&mut env, "K".to_string(), "V".to_string()).unwrap_err(),
        "env exceeds the 4096-entry bound"
    );
}

#[test]
fn byte_strings_that_are_read_in_stop_at_their_bounds() {
    assert!(check_bytes(ByteField::OutputChunk, MAX_OUTPUT_CHUNK_BYTES_CEILING).is_ok());
    assert_eq!(
        check_bytes(ByteField::OutputChunk, MAX_OUTPUT_CHUNK_BYTES_CEILING + 1).unwrap_err(),
        "output chunk exceeds the 1048576-byte bound"
    );
    assert!(check_bytes(ByteField::Stdin, MAX_STDIN_BYTES_CEILING).is_ok());
    assert_eq!(
        check_bytes(ByteField::Stdin, MAX_STDIN_BYTES_CEILING + 1).unwrap_err(),
        "stdin exceeds the 16777216-byte bound"
    );
    let mut bytes = vec![0; MAX_STDIN_BYTES_CEILING - 1];
    assert!(push_bounded_byte(&mut bytes, 7).is_ok());
    assert_eq!(bytes.last(), Some(&7));
    assert_eq!(
        push_bounded_byte(&mut bytes, 8).unwrap_err(),
        "byte payload exceeds the repository bound"
    );
    assert!(check_message(&"m".repeat(MAX_ARG_BYTES)).is_ok());
    assert_eq!(
        check_message(&"m".repeat(MAX_ARG_BYTES + 1)).unwrap_err(),
        "message exceeds the 131072-byte bound"
    );
}

#[test]
fn the_platform_reports_the_tree_containment_it_actually_provides() {
    assert_eq!(
        local_tree_containment(Platform::Unix),
        LocalTreeContainment::ProcessGroup,
        "Unix executions lead their own process group"
    );
    assert_eq!(
        local_tree_containment(Platform::Windows),
        LocalTreeContainment::PlatformTreeKill,
        "Windows uses taskkill /T, which is not job-object containment"
    );
    assert_eq!(
        local_tree_containment(Platform::Other),
        LocalTreeContainment::DirectChildOnly
    );
}

// ── A scripted child ────────────────────────────────────────────────────────

fn fence() -> Arc<FenceEvidence> {
    fence_over(b"an admitted authority")
}

fn fence_over(authority: &[u8]) -> Arc<FenceEvidence> {
    let fence_id: AdmittedFenceId = fence_id_of(Ok(authority.to_vec())).expect("an identity");
    Arc::new(FenceEvidence {
        fence_id,
        sandbox_kind: SandboxKind::Landlock,
        egress_proxied: false,
        named_root: None,
    })
}

fn begin(request: ExecutionRequest) -> (LocalExecution, ExecutionHandle) {
    let mut ids = 1;
    LocalExecutionBackend::new().start(&mut ids, &request).expect("start the execution")
}

fn running() -> (LocalExecution, ExecutionHandle) {
    let (mut run, handle) = begin(ExecutionRequest::new("/bin/sh".to_string()));
    run.attach(4242, fence()).expect("attach");
    (run, handle)
}

/// Hand bytes to the stream as a drainer does: in chunks of the bound.
fn write(run: &mut LocalExecution, handle: &ExecutionHandle, stream: OutputStream, bytes: &[u8]) {
    for chunk in bytes.chunks(handle.limits().max_output_chunk_bytes()) {
        run.sink.output(&mut run.state, stream, chunk).expect("a started execution takes output");
    }
}

fn exit(run: &mut LocalExecution, code: i32) {
    let mut reaping = Reaping::new(2);
    reaping.on_event(ReapEvent::DrainerDone);
    assert_eq!(reaping.on_event(ReapEvent::DrainerDone), ReapStep::Join);
    run.finish(Ok((Some(code), None)), None, &reaping, fence()).expect("the end");
}

fn drain(run: &mut LocalExecution, handle: &mut ExecutionHandle) -> Vec<ExecutionEvent> {
    let mut events = Vec::new();
    while let NextEvent::Event(event) = handle.next_event(&mut run.state) {
        events.push(event);
    }
    events
}

fn text(events: &[ExecutionEvent], want_stdout: bool) -> String {
    let mut out = Vec::new();
    for event in events {
        match (&event.kind, want_stdout) {
            (ExecutionEventKind::Stdout(b), true) | (ExecutionEventKind::Stderr(b), false) => {
                out.extend_from_slice(b);
            }
            _ => {}
        }
    }
    String::from_utf8_lossy(&out).into_owned()
}

fn short_grace() -> ExecutionLimits {
    ExecutionLimits::new(
        4096,
        1024 * 1024,
        64 * 1024,
        Grace::from_millis(200),
        Grace::from_millis(300),
    )
    .expect("within ceilings")
}

// ── Output is there before the end ──────────────────────────────────────────

#[test]
fn stdout_line_one_is_observable_while_the_child_still_runs() {
    let (mut run, mut handle) = running();
    write(&mut run, &handle, OutputStream::Stdout, b"line 1\n");

    let mut saw_line_one = false;
    while let NextEvent::Event(event) = handle.next_event(&mut run.state) {
        if let ExecutionEventKind::Stdout(bytes) = &event.kind {
            if String::from_utf8_lossy(bytes).contains("line 1") {
                saw_line_one = true;
                break;
            }
        }
        assert!(!event.is_terminal(), "terminal arrived before `line 1`");
    }
    assert!(saw_line_one, "`line 1` must reach the consumer");
    assert!(
        run.control.wait().is_none(),
        "`line 1` must arrive while the child runs, not after it exits"
    );
    assert_eq!(handle.next_event(&mut run.state), NextEvent::Pending);

    write(&mut run, &handle, OutputStream::Stdout, b"line 2\n");
    exit(&mut run, 0);
    let terminal = run.control.wait().expect("terminal");
    assert!(terminal.is_exited(), "unexpected terminal: {terminal:?}");
}

#[test]
fn stderr_is_observable_while_the_child_still_runs() {
    let (mut run, mut handle) = running();
    write(&mut run, &handle, OutputStream::Stderr, b"err 1\n");

    let mut seen = false;
    while let NextEvent::Event(event) = handle.next_event(&mut run.state) {
        if let ExecutionEventKind::Stderr(bytes) = &event.kind {
            if String::from_utf8_lossy(bytes).contains("err 1") {
                seen = true;
                break;
            }
        }
        assert!(!event.is_terminal(), "terminal arrived before `err 1`");
    }
    assert!(seen, "`err 1` must reach the consumer");
    assert!(
        run.control.wait().is_none(),
        "stderr must stream live, not replay after exit"
    );
    write(&mut run, &handle, OutputStream::Stderr, b"err 2\n");
    exit(&mut run, 0);
    assert!(run.control.wait().expect("terminal").is_exited());
}

// ── Order, numbers and the one end ──────────────────────────────────────────

#[test]
fn sequence_is_strictly_increasing_and_the_terminal_is_last() {
    let (mut run, mut handle) = running();
    write(&mut run, &handle, OutputStream::Stdout, b"a\n");
    write(&mut run, &handle, OutputStream::Stderr, b"b\n");
    write(&mut run, &handle, OutputStream::Stdout, b"c\n");
    exit(&mut run, 0);
    let events = drain(&mut run, &mut handle);

    assert!(
        events.len() >= 3,
        "expected a real event stream: {events:?}"
    );
    for (i, event) in events.iter().enumerate() {
        assert_eq!(event.sequence, i as u64, "numbers leave no gap");
        assert_eq!(event.execution, handle.id());
    }
    assert_eq!(handle.next_event(&mut run.state), NextEvent::Ended);
    for pair in events.windows(2) {
        assert!(
            pair[1].sequence > pair[0].sequence,
            "sequence must strictly increase: {:?} then {:?}",
            pair[0],
            pair[1]
        );
    }
    assert!(matches!(events[0].kind, ExecutionEventKind::Accepted));
    assert!(
        matches!(events[1].kind, ExecutionEventKind::Started { .. }),
        "Started must follow Accepted: {:?}",
        events[1]
    );

    let terminals = events.iter().filter(|e| e.is_terminal()).count();
    assert_eq!(terminals, 1, "exactly one terminal event");
    assert!(
        events.last().expect("non-empty").is_terminal(),
        "the terminal must follow all delivered output"
    );
    assert_eq!(text(&events, true).matches('a').count(), 1);
    assert!(text(&events, false).contains('b'));
}

#[test]
fn delivered_numbers_leave_no_gap() {
    let (mut run, mut handle) = running();
    write(&mut run, &handle, OutputStream::Stdout, b"a");
    write(&mut run, &handle, OutputStream::Stderr, b"b");
    exit(&mut run, 0);
    let events = drain(&mut run, &mut handle);
    let numbers: Vec<u64> = events.iter().map(|e| e.sequence).collect();
    assert_eq!(numbers, vec![0, 1, 2, 3, 4]);
    assert!(events.iter().all(|e| e.execution == ExecutionId(1)));
    assert_eq!(handle.next_event(&mut run.state), NextEvent::Ended);
    assert!(handle.try_next_event(&mut run.state).is_none());
}

#[test]
fn the_stream_refuses_events_out_of_turn() {
    let (mut run, _handle) = begin(ExecutionRequest::new("x".to_string()));
    let sink = run.sink;
    assert_eq!(
        reason(sink.accepted(&mut run.state).unwrap_err()),
        "invalid execution event sequence: accepted must be the first event"
    );
    assert_eq!(
        reason(sink.output(&mut run.state, OutputStream::Stdout, b"early").unwrap_err()),
        "invalid execution event sequence: output requires a prior started event"
    );
    let exited = compose_terminal(
        Ok((Some(0), None)),
        None,
        None,
        ExitDisposition::Natural,
        fence(),
        DroppedEvidence::default(),
    );
    assert_eq!(
        reason(sink.publish_terminal(&mut run.state, exited).unwrap_err()),
        "invalid execution event sequence: an exited terminal requires a started event"
    );
    assert!(sink.started(&mut run.state, 1, fence()).is_ok());
    assert_eq!(
        reason(sink.started(&mut run.state, 1, fence()).unwrap_err()),
        "invalid execution event sequence: started must follow accepted exactly once"
    );
    let chunk = vec![0; ExecutionLimits::default().max_output_chunk_bytes() + 1];
    assert_eq!(
        reason(sink.output(&mut run.state, OutputStream::Stdout, &chunk).unwrap_err()),
        "invalid execution event sequence: output chunk exceeds the configured chunk bound"
    );
    assert_eq!(
        sink.output(&mut run.state, OutputStream::Stdout, b"").unwrap(),
        ExecutionEmit::Delivered
    );
    let failed = ExecutionTerminal::Failed {
        message: "over".to_string(),
    };
    assert!(sink.publish_terminal(&mut run.state, failed.clone()).is_ok());
    assert_eq!(
        reason(sink.publish_terminal(&mut run.state, failed).unwrap_err()),
        "invalid execution event sequence: terminal must be published exactly once"
    );
    let denial = Denial {
        kind: DenialKind::Open,
        target: "h".to_string(),
        reason: "off list".to_string(),
    };
    assert_eq!(
        reason(sink.denial(&mut run.state, denial).unwrap_err()),
        "invalid execution event sequence: no event may follow the terminal"
    );
}

#[test]
fn a_denial_during_the_run_is_an_event() {
    let (mut run, mut handle) = running();
    let sink = run.sink;
    let denial = Denial {
        kind: DenialKind::Open,
        target: "h".to_string(),
        reason: "off list".to_string(),
    };
    assert_eq!(
        sink.denial(&mut run.state, denial.clone()).unwrap(),
        ExecutionEmit::Delivered
    );
    exit(&mut run, 0);
    let events = drain(&mut run, &mut handle);
    assert!(events.iter().any(|e| e.kind == ExecutionEventKind::Denial(denial.clone())));
}

#[test]
fn repeated_wait_returns_identical_final_evidence() {
    let (mut run, handle) = running();
    write(&mut run, &handle, OutputStream::Stdout, b"done\n");
    exit(&mut run, 7);
    let first = run.control.wait().expect("first wait");
    let second = run.control.wait().expect("second wait");
    let third = run.control.wait().expect("third wait");
    assert_eq!(first, second, "wait must be idempotent");
    assert_eq!(second, third, "wait must be idempotent");
    assert_eq!(
        first.exit_evidence().expect("exited").code,
        Some(7),
        "the cached terminal keeps the real exit code"
    );
}

#[test]
fn every_wait_gives_the_end_of_the_stream() {
    let (mut run, mut handle) = running();
    write(&mut run, &handle, OutputStream::Stdout, b"done\n");
    assert_eq!(run.control.wait(), None);
    exit(&mut run, 7);
    let before = run.control.wait().expect("a record");
    let events = drain(&mut run, &mut handle);
    assert_eq!(run.control.wait(), Some(before.clone()), "consuming changes no record");
    let end = &events.last().expect("events").kind;
    assert!(
        matches!((end, &before), (ExecutionEventKind::Exited(a), ExecutionTerminal::Exited(b)) if a == b)
    );
}

#[test]
fn every_byte_is_delivered_or_counted() {
    let limits =
        ExecutionLimits::new(4, 20, 10, Grace::from_secs(1), Grace::from_secs(1)).unwrap();
    let (mut state, sink, mut handle) = execution_stream(ExecutionId(5), limits);
    sink.accepted(&mut state).unwrap();
    sink.started(&mut state, 1, fence()).unwrap();
    let mut passed = 0;
    let mut joined: Vec<u8> = Vec::new();
    let mut delivered: Vec<u8> = Vec::new();
    for i in 0..40u8 {
        let chunk = vec![i; 1 + usize::from(i % 10)];
        passed += chunk.len() as u64;
        let emit = sink.output(&mut state, OutputStream::Stdout, &chunk).unwrap();
        if emit == ExecutionEmit::Delivered {
            delivered.extend_from_slice(&chunk);
        }
        if i % 3 == 0 {
            if let Some(event) = handle.try_next_event(&mut state) {
                if let ExecutionEventKind::Stdout(bytes) = event.kind {
                    joined.extend_from_slice(&bytes);
                }
            }
        }
    }
    while let Some(event) = handle.try_next_event(&mut state) {
        if let ExecutionEventKind::Stdout(bytes) = event.kind {
            joined.extend_from_slice(&bytes);
        }
    }
    let dropped = sink.dropped(&state);
    assert_eq!(joined, delivered);
    assert!(dropped.stdout_bytes > 0);
    assert_eq!(dropped.stderr_bytes, 0);
    assert_eq!(joined.len() as u64 + dropped.stdout_bytes, passed);
}

#[test]
fn a_later_record_changes_nothing() {
    let (mut run, mut handle) = running();
    exit(&mut run, 7);
    let first = run.control.wait();
    let sink = run.sink;
    run.control.publish_fallback(&sink, &mut run.state).expect("the first record stands");
    assert_eq!(run.control.wait(), first);
    assert_eq!(drain(&mut run, &mut handle).iter().filter(|e| e.is_terminal()).count(), 1);
}

#[test]
fn an_owner_that_never_publishes_leaves_nobody_waiting() {
    let (mut run, mut handle) = running();
    let sink = run.sink;
    run.control.publish_fallback(&sink, &mut run.state).expect("published");
    assert_eq!(
        run.control.wait(),
        Some(ExecutionTerminal::Failed {
            message: "the execution owner terminated without publishing a result".to_string(),
        })
    );
    assert!(drain(&mut run, &mut handle).last().expect("events").is_terminal());
}

// ── The fence crosses to the evidence ───────────────────────────────────────

#[test]
fn started_and_final_evidence_carry_the_same_applied_fence_identity() {
    let (mut run, mut handle) = running();
    exit(&mut run, 0);
    let events = drain(&mut run, &mut handle);

    let started_fence = events
        .iter()
        .find_map(|e| match &e.kind {
            ExecutionEventKind::Started { fence, .. } => Some(fence.clone()),
            _ => None,
        })
        .expect("a Started event carrying fence evidence");

    let terminal = run.control.wait().expect("terminal");
    let evidence = terminal.exit_evidence().expect("exited");
    assert_eq!(
        started_fence, evidence.fence,
        "the terminal must name the same fence the start did"
    );
    assert_eq!(started_fence.sandbox_kind, evidence.fence.sandbox_kind);
    assert!(
        !started_fence.fence_id.cid.is_empty(),
        "fence id must be the admitted object's real CID"
    );
    assert!(started_fence.same(&evidence.fence));
}

#[test]
fn fence_identity_is_content_addressed_not_per_process() {
    let (mut first, _a) = running();
    let (mut second, _b) = begin(ExecutionRequest::new("/bin/sh".to_string()));
    second.attach(9999, fence()).expect("attach");
    exit(&mut first, 0);
    exit(&mut second, 0);
    let one = first.control.wait().expect("terminal");
    let two = second.control.wait().expect("terminal");
    assert_eq!(
        one.exit_evidence().expect("exited").fence.fence_id,
        two.exit_evidence().expect("exited").fence.fence_id,
        "equal admitted authority means equal fence id"
    );
    assert_ne!(fence_over(b"one").fence_id, fence_over(b"another").fence_id);
    assert!(!fence_over(b"one").same(&fence_over(b"another")));
}

// ── A refusal starts nothing ────────────────────────────────────────────────

#[test]
fn a_refused_spawn_emits_no_started_and_signals_nothing() {
    let (mut run, mut handle) = begin(ExecutionRequest::new("/bin/sh".to_string()));
    run.spawn_refused("/bin/sh", ToolError::denied("outside grant".to_string()))
        .expect("published");
    let events = drain(&mut run, &mut handle);
    assert!(
        matches!(events[0].kind, ExecutionEventKind::Accepted),
        "the stream still opens with Accepted"
    );
    assert!(
        !events.iter().any(|e| matches!(e.kind, ExecutionEventKind::Started { .. })),
        "a denied execution must emit no Started: {events:?}"
    );
    assert_eq!(
        run.control.wait(),
        Some(ExecutionTerminal::Denied {
            denial: Denial {
                kind: DenialKind::Exec,
                target: "/bin/sh".to_string(),
                reason: "outside grant".to_string(),
            },
        })
    );
    assert_eq!(run.control.abandon().signal, None);
}

#[test]
fn a_spawn_that_fails_is_a_failure_and_no_denial() {
    let (mut run, _handle) = begin(ExecutionRequest::new("/bin/sh".to_string()));
    run.spawn_refused("/bin/sh", ToolError::Exec("no such file".to_string()))
        .expect("published");
    let terminal = run.control.wait().expect("terminal");
    assert!(matches!(terminal, ExecutionTerminal::Failed { .. }));
    assert!(terminal.exit_evidence().is_none());
}

// ── The process tree ────────────────────────────────────────────────────────

#[test]
fn a_cancellation_asks_first_and_forces_once_after_the_grace() {
    let mut tree = TreeState::new();
    assert_eq!(
        tree.cancel(),
        CancelPlan {
            signal: None,
            escalate: false
        }
    );
    tree = TreeState::new();
    tree.arm(77);
    let plan = tree.cancel();
    assert_eq!(
        plan.signal,
        Some(SignalOrder {
            pid: 77,
            signal: TreeSignal::Graceful
        })
    );
    assert!(plan.escalate);
    assert!(!tree.cancel().escalate, "one escalation is enough");
    assert_eq!(
        tree.escalate(),
        Some(SignalOrder {
            pid: 77,
            signal: TreeSignal::Forced
        })
    );
    assert_eq!(tree.disposition(false), ExitDisposition::Cancelled);
    tree.leader_reaped();
    assert_eq!(tree.escalate(), None, "a reaped leader's number is not ours to signal");
    assert_eq!(tree.kill(), None);
}

#[test]
fn a_kill_is_forced_at_once_and_outranks_a_cancellation() {
    let mut tree = TreeState::new();
    tree.arm(77);
    tree.cancel();
    assert_eq!(
        tree.kill(),
        Some(SignalOrder {
            pid: 77,
            signal: TreeSignal::Forced
        })
    );
    assert_eq!(tree.disposition(false), ExitDisposition::Killed);
}

#[test]
fn giving_an_execution_up_ends_and_joins_it_once() {
    let (mut run, handle) = running();
    assert!(handle.release(&mut run.state), "the tree still runs");
    assert!(!run.sink.consumer_alive(&run.state));
    let plan = run.control.abandon();
    assert_eq!(
        plan.signal,
        Some(SignalOrder {
            pid: 4242,
            signal: TreeSignal::Forced
        })
    );
    assert!(plan.join);
    let again = run.control.abandon();
    assert_eq!(again.signal, None);
    assert!(!again.join);
}

#[test]
fn a_handle_given_up_after_the_end_leaves_nothing_to_end() {
    let (mut run, mut handle) = running();
    exit(&mut run, 0);
    drain(&mut run, &mut handle);
    assert!(!handle.release(&mut run.state));
}

#[test]
fn only_real_group_numbers_are_signalled() {
    assert_eq!(signal_target(0), None);
    assert_eq!(signal_target(1), Some(1));
    assert_eq!(signal_target(2147483647), Some(2147483647));
    assert_eq!(signal_target(2147483648), None);
}

#[test]
fn a_drainer_reads_on_until_the_end_or_a_failure() {
    assert!(keep_draining(DrainEvent::Chunk));
    assert!(keep_draining(DrainEvent::Interrupted));
    assert!(!keep_draining(DrainEvent::End));
    assert!(!keep_draining(DrainEvent::Failed));
}

#[test]
fn a_descendant_holding_the_pipes_cannot_create_a_false_terminal() {
    let (mut run, _handle) =
        begin(ExecutionRequest::new("/bin/sh".to_string()).limits(short_grace()));
    run.attach(4242, fence()).expect("attach");
    let mut tree = run.control.tree_state();
    tree.leader_reaped();
    run.control.set_tree(tree);

    let mut reaping = Reaping::new(2);
    assert_eq!(reaping.step(), ReapStep::WaitBriefly);
    assert_eq!(reaping.on_event(ReapEvent::TimedOut), ReapStep::ForceTree);
    assert_eq!(
        run.control.tree_state().force_tree(),
        Some(SignalOrder {
            pid: 4242,
            signal: TreeSignal::Forced
        })
    );
    assert!(run.control.wait().is_none(), "nothing is published while an output is open");
    assert_eq!(reaping.on_event(ReapEvent::DrainerDone), ReapStep::Wait);
    assert_eq!(reaping.on_event(ReapEvent::DrainerDone), ReapStep::Join);
    run.finish(Ok((Some(0), None)), None, &reaping, fence()).expect("the end");

    let terminal = run.control.wait().expect("terminal");
    let evidence = terminal.exit_evidence().expect("exited");
    assert_eq!(
        evidence.disposition,
        ExitDisposition::DescendantsReaped,
        "the terminal must record that descendants had to be reaped, not claim a clean natural exit"
    );
}

#[test]
fn outputs_that_vanish_are_forced_before_they_are_given_up() {
    let mut reaping = Reaping::new(2);
    assert_eq!(reaping.on_event(ReapEvent::Disconnected), ReapStep::ForceTree);
    assert_eq!(reaping.on_event(ReapEvent::Disconnected), ReapStep::Join);
    assert!(reaping.forced);
    assert_eq!(reaping.on_event(ReapEvent::TimedOut), ReapStep::Join);
}

#[test]
fn a_join_without_force_saw_every_output_end() {
    let mut reaping = Reaping::new(2);
    assert_eq!(reaping.on_event(ReapEvent::DrainerDone), ReapStep::WaitBriefly);
    assert_eq!(reaping.on_event(ReapEvent::DrainerDone), ReapStep::Join);
    assert!(!reaping.forced);
    assert_eq!(reaping.finished, reaping.expected);
}

// ── Bounded buffering, exact accounts ───────────────────────────────────────

#[test]
fn a_stalled_consumer_stays_bounded_and_reports_exact_dropped_bytes() {
    let limits = ExecutionLimits::new(
        64,
        4096,
        256,
        Grace::from_secs(5),
        Grace::from_millis(500),
    )
    .expect("within ceilings");

    let (mut run, mut handle) =
        begin(ExecutionRequest::new("/bin/sh".to_string()).limits(limits));
    run.attach(4242, fence()).expect("attach");
    for i in 0..512 {
        let line = format!("{i:01024}");
        write(&mut run, &handle, OutputStream::Stdout, line.as_bytes());
    }
    exit(&mut run, 0);

    let terminal = run
        .control
        .wait()
        .expect("the child must not wedge on a full queue");
    let evidence = terminal.exit_evidence().expect("exited");

    assert!(
        evidence.dropped.stdout_bytes > 0,
        "the bound must actually have been hit"
    );
    assert_eq!(
        evidence.dropped.stderr_bytes, 0,
        "nothing was written to stderr"
    );
    assert!(
        evidence.dropped.events > 0,
        "dropped events must be counted, not merely flagged"
    );

    let events = drain(&mut run, &mut handle);
    let queued_output: usize = events
        .iter()
        .filter_map(|e| match &e.kind {
            ExecutionEventKind::Stdout(b) | ExecutionEventKind::Stderr(b) => Some(b.len()),
            _ => None,
        })
        .sum();
    assert!(
        queued_output <= limits.max_queued_output_bytes(),
        "queued {queued_output} bytes exceeds the {} byte bound",
        limits.max_queued_output_bytes()
    );
    let held = events
        .iter()
        .filter(|e| {
            matches!(
                e.kind,
                ExecutionEventKind::Stdout(_)
                    | ExecutionEventKind::Stderr(_)
                    | ExecutionEventKind::OutputTruncated(_)
            )
        })
        .count();
    assert!(
        held <= limits.max_queued_events(),
        "queued {held} events exceeds the {} event bound",
        limits.max_queued_events()
    );

    assert!(
        events
            .iter()
            .any(|e| matches!(e.kind, ExecutionEventKind::OutputTruncated(_))),
        "a stalled stream must carry an explicit OutputTruncated notice"
    );
    assert!(
        events.last().expect("events").is_terminal(),
        "a full output queue must not be able to lose the terminal"
    );

    let total = queued_output as u64 + evidence.dropped.stdout_bytes;
    assert_eq!(
        total,
        512 * 1024,
        "dropped-byte accounting must be exact, not approximate"
    );
}

#[test]
fn a_notice_is_queued_as_soon_as_there_is_room_again() {
    let limits =
        ExecutionLimits::new(8, 256, 256, Grace::from_secs(1), Grace::from_secs(1)).unwrap();
    let (mut state, sink, mut handle) = execution_stream(ExecutionId(3), limits);
    sink.accepted(&mut state).unwrap();
    sink.started(&mut state, 1, fence()).unwrap();
    assert_eq!(
        sink.output(&mut state, OutputStream::Stdout, &[1; 256]).unwrap(),
        ExecutionEmit::Delivered
    );
    assert_eq!(
        sink.output(&mut state, OutputStream::Stderr, &[2; 10]).unwrap(),
        ExecutionEmit::Dropped
    );
    let lost = DroppedEvidence {
        stdout_bytes: 0,
        stderr_bytes: 10,
        events: 1,
    };
    assert_eq!(sink.dropped(&state), lost);
    assert!(!lost.is_empty());
    for _ in 0..3 {
        assert!(matches!(handle.next_event(&mut state), NextEvent::Event(_)));
    }
    assert_eq!(
        sink.output(&mut state, OutputStream::Stderr, &[3; 5]).unwrap(),
        ExecutionEmit::Delivered
    );
    assert_eq!(
        handle.try_next_event(&mut state).map(|e| e.kind),
        Some(ExecutionEventKind::OutputTruncated(lost))
    );
    assert_eq!(
        handle.try_next_event(&mut state).map(|e| e.kind),
        Some(ExecutionEventKind::Stderr(vec![3; 5]))
    );
    assert_eq!(handle.next_event(&mut state), NextEvent::Pending);
}

// ── Standard input ──────────────────────────────────────────────────────────

#[test]
fn explicit_stdin_bytes_reach_the_child_and_then_eof() {
    let request = ExecutionRequest::new("cat".to_string())
        .stdin(ExecutionStdin::Bytes(b"hello stdin\n".to_vec()));
    assert!(request.validate().is_ok());
    let ExecutionStdin::Bytes(input) = request.stdin.clone() else {
        panic!("the request carries its input")
    };
    let (mut run, mut handle) = begin(request);
    run.attach(4242, fence()).expect("attach");
    write(&mut run, &handle, OutputStream::Stdout, &input);
    exit(&mut run, 0);
    let events = drain(&mut run, &mut handle);
    assert!(
        text(&events, true).contains("hello stdin"),
        "stdin must reach the child and the child must see EOF so `cat` exits"
    );
}

// ── The egress proxy ────────────────────────────────────────────────────────

#[test]
fn proxy_finalization_failure_becomes_execution_failure() {
    let (mut run, _handle) = running();
    exit(&mut run, 0);
    let probe = run.control.wait().expect("terminal");
    let fence = probe.exit_evidence().expect("exited").fence.clone();

    let failed = compose_terminal(
        Ok((Some(0), None)),
        None,
        Some("workers did not join".to_string()),
        ExitDisposition::Natural,
        fence.clone(),
        DroppedEvidence::default(),
    );
    assert!(
        matches!(failed, ExecutionTerminal::Failed { .. }),
        "an unfinalized proxy must not report a successful exit: {failed:?}"
    );
    assert!(
        failed.exit_evidence().is_none(),
        "a failed finalization exposes no exit evidence at all"
    );

    let ok = compose_terminal(
        Ok((Some(0), None)),
        None,
        None,
        ExitDisposition::Natural,
        fence,
        DroppedEvidence::default(),
    );
    assert!(ok.is_exited());
}

#[test]
fn a_tree_that_cannot_be_reaped_is_a_failure() {
    let failed = compose_terminal(
        Err("no child".to_string()),
        None,
        None,
        ExitDisposition::Natural,
        fence(),
        DroppedEvidence::default(),
    );
    assert_eq!(
        failed,
        ExecutionTerminal::Failed {
            message: "could not reap the execution's process tree: no child".to_string(),
        }
    );
}

#[test]
fn a_proxy_backed_execution_either_refuses_closed_or_proves_quiescence() {
    // The fence could not be proven: nothing ran, and the end is a denial.
    let (mut run, mut handle) = begin(ExecutionRequest::new("/bin/sh".to_string()));
    run.spawn_refused("/bin/sh", ToolError::denied("net cannot be bounded".to_string()))
        .expect("published");
    let events = drain(&mut run, &mut handle);
    assert!(!events.iter().any(|e| matches!(e.kind, ExecutionEventKind::Started { .. })));
    let terminal = run.control.wait().expect("terminal");
    assert!(
        matches!(terminal, ExecutionTerminal::Denied { .. }),
        "a proxy-backed execution that never started must be an explicit \
         denial, not a silent success: {terminal:?}"
    );

    // The fence holds: the end carries the proxy's final account.
    let proxied = Arc::new(FenceEvidence {
        fence_id: fence_id_of(Ok(b"a proxied authority".to_vec())).expect("an identity"),
        sandbox_kind: SandboxKind::Landlock,
        egress_proxied: true,
        named_root: None,
    });
    let (mut run, mut handle) = begin(ExecutionRequest::new("/bin/sh".to_string()));
    run.attach(4242, proxied.clone()).expect("attach");
    write(&mut run, &handle, OutputStream::Stdout, b"hi\n");
    let mut ledger = ProxyLedger::new(4);
    ledger.begin_shutdown();
    let account = ledger.finalize(false);
    let mut reaping = Reaping::new(2);
    reaping.on_event(ReapEvent::DrainerDone);
    reaping.on_event(ReapEvent::DrainerDone);
    run.finish(
        Ok((Some(0), None)),
        Some(account.map_err(|e| e.message())),
        &reaping,
        proxied,
    )
    .expect("the end");
    let events = drain(&mut run, &mut handle);
    let started = events
        .iter()
        .find_map(|e| match &e.kind {
            ExecutionEventKind::Started { fence, .. } => Some(fence.clone()),
            _ => None,
        })
        .expect("started");
    let terminal = run.control.wait().expect("terminal");
    assert!(
        started.egress_proxied,
        "the plan engaged, so the child must be proxied"
    );
    let evidence = terminal.exit_evidence().expect("exited");
    assert!(
        evidence.proxy.is_some(),
        "a proxied execution's terminal must carry FROZEN proxy evidence"
    );
    assert_eq!(evidence.fence, started);
}

// ── Backends and controls ───────────────────────────────────────────────────

#[test]
fn a_backend_keeps_the_policy_it_was_given() {
    assert!(LocalExecutionBackend::new().sandbox_policy().is_none());
    let policy = Arc::new(SandboxPolicy::default());
    let backend = LocalExecutionBackend::with_sandbox_policy(policy.clone());
    assert!(backend.sandbox_policy().is_some());
}

struct Ended;

impl ExecutionControl for Ended {
    fn wait(&self) -> ToolResult<ExecutionTerminal> {
        Ok(ExecutionTerminal::Failed {
            message: "over".to_string(),
        })
    }
    fn cancel(&self) -> ToolResult<()> {
        Err(ToolError::denied("already over".to_string()))
    }
    fn kill(&self) -> ToolResult<()> {
        Ok(())
    }
    fn abandon(&self) {}
}

#[test]
fn a_handle_hands_its_controls_on() {
    let (_run, handle) = running();
    assert!(!handle.wait(&Ended).expect("the control's answer").is_exited());
    assert_eq!(reason(handle.cancel(&Ended).unwrap_err()), "already over");
    assert!(handle.kill(&Ended).is_ok());
    assert!(LocalControl::new().wait().is_none());
}
