//! The life of the proxy: which connections are served, how the workers are
//! counted, and what is known at the end.
//!
//! `Running`, then `ShuttingDown`, then `Quiescent`. The program around the
//! library accepts connections, starts and joins the workers, and reports each
//! event here, under one lock.

use vstd::prelude::*;
use vstd::string::*;

use crate::net_proxy::evidence::{
    is_snapshot, orderly, Evidence, EvidenceView, ProxyFinalEvidence, ProxyFinalizeError,
};
use crate::sets::{in_order, views};
use crate::text::{decimal, decimal_of};

verus! {

/// The default bound on simultaneously active connection workers.
pub const DEFAULT_WORKER_CAP: usize = 256;

/// Where the proxy stands in its life.
#[derive(Debug, Clone, Copy, PartialEq, Eq, Structural)]
pub enum Lifecycle {
    /// Connections are served.
    Running,
    /// No further connection is served; the workers are being joined.
    ShuttingDown,
    /// Every worker was joined; the account is final.
    Quiescent,
}

/// What becomes of an offered connection.
#[derive(Debug, Clone, Copy, PartialEq, Eq, Structural)]
pub enum Admission {
    /// The proxy is no longer running: stop accepting.
    Stop,
    /// No worker is free: answer that the service is unavailable.
    Overloaded,
    /// Start a worker.
    Serve,
}

/// How a connection worker ended.
#[derive(Debug, Clone, Copy, PartialEq, Eq, Structural)]
pub enum WorkerExit {
    /// It returned on its own.
    Completed,
    /// It returned, and shutdown had closed its sockets.
    Aborted,
    /// It panicked.
    Panicked,
}

/// The books of a proxy.
#[derive(Debug)]
pub struct ProxyLedger {
    lifecycle: Lifecycle,
    evidence: Evidence,
    next_id: u64,
    active: usize,
    cap: usize,
    high_water: usize,
}

/// The model of [`ProxyLedger`].
#[verifier::ext_equal]
pub ghost struct LedgerView {
    pub lifecycle: Lifecycle,
    pub evidence: EvidenceView,
    pub next_id: int,
    pub active: int,
    pub cap: int,
    pub high_water: int,
}

impl View for ProxyLedger {
    type V = LedgerView;

    closed spec fn view(&self) -> LedgerView {
        LedgerView {
            lifecycle: self.lifecycle,
            evidence: self.evidence@,
            next_id: self.next_id as int,
            active: self.active as int,
            cap: self.cap as int,
            high_water: self.high_water as int,
        }
    }
}

impl LedgerView {
    /// Every accepted connection is active or has exactly one outcome, the
    /// workers never exceed the bound, and the account is within its own.
    pub open spec fn consistent(self) -> bool {
        &&& 0 <= self.active <= self.high_water <= self.cap
        &&& self.evidence.accepted == self.evidence.completed + self.evidence.worker_panics
            + self.active
        &&& 0 <= self.evidence.shutdown_aborts <= self.evidence.completed
        &&& 0 <= self.evidence.worker_panics
        &&& self.evidence.bounded()
    }

    /// No counter is at its limit.
    pub open spec fn has_room(self) -> bool {
        self.evidence.has_room() && self.next_id < u64::MAX
    }

    /// What becomes of an offered connection.
    pub open spec fn admission(self) -> Admission {
        if self.lifecycle != Lifecycle::Running {
            Admission::Stop
        } else if self.active >= self.cap {
            Admission::Overloaded
        } else {
            Admission::Serve
        }
    }

    /// The books after a connection was offered.
    pub open spec fn after_offer(self) -> LedgerView {
        if self.admission() == Admission::Overloaded {
            LedgerView {
                evidence: EvidenceView {
                    capacity_rejects: self.evidence.capacity_rejects + 1,
                    ..self.evidence
                },
                ..self
            }
        } else {
            self
        }
    }

    /// The books after a worker was started.
    pub open spec fn after_spawn(self) -> LedgerView {
        LedgerView {
            evidence: EvidenceView { accepted: self.evidence.accepted + 1, ..self.evidence },
            next_id: self.next_id + 1,
            active: self.active + 1,
            high_water: if self.active + 1 > self.high_water {
                self.active + 1
            } else {
                self.high_water
            },
            ..self
        }
    }

    /// The books after a worker could not be started.
    pub open spec fn after_spawn_failure(self) -> LedgerView {
        LedgerView {
            evidence: EvidenceView {
                worker_spawn_failures: self.evidence.worker_spawn_failures + 1,
                ..self.evidence
            },
            ..self
        }
    }

    /// The books after a worker was joined.
    pub open spec fn after_join(self, exit: WorkerExit) -> LedgerView {
        LedgerView {
            evidence: match exit {
                WorkerExit::Completed => EvidenceView {
                    completed: self.evidence.completed + 1,
                    ..self.evidence
                },
                WorkerExit::Aborted => EvidenceView {
                    completed: self.evidence.completed + 1,
                    shutdown_aborts: self.evidence.shutdown_aborts + 1,
                    ..self.evidence
                },
                WorkerExit::Panicked => EvidenceView {
                    worker_panics: self.evidence.worker_panics + 1,
                    ..self.evidence
                },
            },
            active: self.active - 1,
            ..self
        }
    }
}

/// Why completeness cannot be shown.
pub open spec fn incomplete_reason(panics: int, spawn_failures: int) -> Seq<char> {
    decimal(panics as nat) + " worker panic(s) and "@ + decimal(spawn_failures as nat)
        + " spawn failure(s): completeness is not provable"@
}

impl ProxyLedger {
    /// The books of a proxy that starts to run with a bound on its workers.
    pub fn new(cap: usize) -> (r: Self)
        ensures
            r@ == (LedgerView {
                lifecycle: Lifecycle::Running,
                evidence: EvidenceView::nothing(),
                next_id: 0,
                active: 0,
                cap: cap as int,
                high_water: 0,
            }),
            r@.consistent(),
    {
        ProxyLedger {
            lifecycle: Lifecycle::Running,
            evidence: Evidence::new(),
            next_id: 0,
            active: 0,
            cap,
            high_water: 0,
        }
    }

    /// Whether no counter is at its limit.
    pub fn has_room(&self) -> (r: bool)
        ensures
            r == self@.has_room(),
    {
        self.evidence.has_room() && self.next_id < u64::MAX
    }

    /// Where the proxy stands in its life.
    pub fn lifecycle(&self) -> (r: Lifecycle)
        ensures
            r == self@.lifecycle,
    {
        self.lifecycle
    }

    /// The number of active workers.
    pub fn active(&self) -> (r: usize)
        ensures
            r == self@.active,
    {
        self.active
    }

    /// Decide what becomes of an offered connection.
    pub fn offer(&mut self) -> (r: Admission)
        requires
            old(self)@.consistent(),
            old(self)@.has_room(),
        ensures
            r == old(self)@.admission(),
            final(self)@ == old(self)@.after_offer(),
            final(self)@.consistent(),
    {
        if self.lifecycle != Lifecycle::Running {
            return Admission::Stop;
        }
        if self.active >= self.cap {
            self.evidence.count_overload();
            return Admission::Overloaded;
        }
        Admission::Serve
    }

    /// A worker was started for a connection: the result is its number.
    pub fn spawned(&mut self) -> (r: u64)
        requires
            old(self)@.consistent(),
            old(self)@.has_room(),
            old(self)@.active < old(self)@.cap,
        ensures
            r == old(self)@.next_id,
            final(self)@ == old(self)@.after_spawn(),
            final(self)@.consistent(),
    {
        let id: u64 = self.next_id;
        self.next_id = id + 1;
        self.active = self.active + 1;
        if self.active > self.high_water {
            self.high_water = self.active;
        }
        self.evidence.count_accepted();
        id
    }

    /// A worker could not be started.
    pub fn spawn_failed(&mut self)
        requires
            old(self)@.consistent(),
            old(self)@.has_room(),
        ensures
            final(self)@ == old(self)@.after_spawn_failure(),
            final(self)@.consistent(),
    {
        self.evidence.count_spawn_failure();
    }

    /// A worker was joined. This is the only place where the outcome of a
    /// connection is recorded.
    pub fn joined(&mut self, exit: WorkerExit)
        requires
            old(self)@.consistent(),
            old(self)@.has_room(),
            old(self)@.active > 0,
        ensures
            final(self)@ == old(self)@.after_join(exit),
            final(self)@.consistent(),
    {
        match exit {
            WorkerExit::Completed => {
                self.evidence.count_completed();
            },
            WorkerExit::Aborted => {
                self.evidence.count_completed();
                self.evidence.count_abort();
            },
            WorkerExit::Panicked => {
                self.evidence.count_panic();
            },
        }
        self.active = self.active - 1;
    }

    /// A request for a host that is not granted was refused.
    pub fn refuse_host(&mut self, host: &str)
        requires
            old(self)@.consistent(),
            old(self)@.has_room(),
        ensures
            final(self)@ == (LedgerView {
                evidence: old(self)@.evidence.after_refusal(host@),
                ..old(self)@
            }),
            final(self)@.consistent(),
    {
        self.evidence.record_refused(host);
    }

    /// The hosts refused so far, in order. This is a live account, not a
    /// terminal one.
    pub fn refused_hosts(&self) -> (r: Vec<String>)
        ensures
            views(r@) == in_order::<String>(self@.evidence.refused),
            views(r@).to_set() == self@.evidence.refused,
            orderly(r@),
    {
        self.evidence.refused_sorted()
    }

    /// Stop serving. A proxy that already stopped stays where it is.
    pub fn begin_shutdown(&mut self)
        requires
            old(self)@.consistent(),
        ensures
            final(self)@ == (LedgerView {
                lifecycle: if old(self)@.lifecycle == Lifecycle::Running {
                    Lifecycle::ShuttingDown
                } else {
                    old(self)@.lifecycle
                },
                ..old(self)@
            }),
            final(self)@.consistent(),
    {
        if self.lifecycle == Lifecycle::Running {
            self.lifecycle = Lifecycle::ShuttingDown;
        }
    }

    /// Close the books, once every worker was joined. There is a terminal
    /// account only where nothing failed on the way: the accepting thread, the
    /// start of a worker, or a worker; and then every accepted connection was
    /// completed.
    pub fn finalize(&mut self, supervisor_panicked: bool) -> (r: Result<
        ProxyFinalEvidence,
        ProxyFinalizeError,
    >)
        requires
            old(self)@.consistent(),
            old(self)@.active == 0,
        ensures
            final(self)@ == (LedgerView { lifecycle: Lifecycle::Quiescent, ..old(self)@ }),
            final(self)@.consistent(),
            if supervisor_panicked {
                r matches Err(ProxyFinalizeError::SupervisorFailed { reason }) && reason@
                    == "accept supervisor thread panicked"@
            } else if old(self)@.evidence.worker_panics > 0
                || old(self)@.evidence.worker_spawn_failures > 0 {
                r matches Err(ProxyFinalizeError::Incomplete { partial, reason }) && is_snapshot(
                    partial,
                    old(self)@.evidence,
                    old(self)@.cap,
                    old(self)@.high_water,
                ) && orderly(partial.refused_hosts@) && reason@ == incomplete_reason(
                    old(self)@.evidence.worker_panics,
                    old(self)@.evidence.worker_spawn_failures,
                )
            } else {
                r matches Ok(e) && is_snapshot(
                    e,
                    old(self)@.evidence,
                    old(self)@.cap,
                    old(self)@.high_water,
                ) && orderly(e.refused_hosts@) && e.accepted == e.completed && e.worker_panics == 0
                    && e.worker_spawn_failures == 0 && e.shutdown_aborts <= e.completed
                    && e.high_water_workers <= e.worker_cap
            },
    {
        let snapshot: ProxyFinalEvidence = self.evidence.snapshot(self.cap, self.high_water);
        self.lifecycle = Lifecycle::Quiescent;
        if supervisor_panicked {
            return Err(
                ProxyFinalizeError::SupervisorFailed {
                    reason: "accept supervisor thread panicked".to_owned(),
                },
            );
        }
        if snapshot.worker_panics > 0 || snapshot.worker_spawn_failures > 0 {
            let reason: String = decimal_of(snapshot.worker_panics).concat(
                " worker panic(s) and ",
            ).concat(decimal_of(snapshot.worker_spawn_failures).as_str()).concat(
                " spawn failure(s): completeness is not provable",
            );
            return Err(ProxyFinalizeError::Incomplete { partial: snapshot, reason });
        }
        Ok(snapshot)
    }
}

/// Once shutdown has begun, nothing more is served, whatever is offered,
/// joined or refused, until the books are closed.
pub proof fn law_shutdown_admits_nothing(l: LedgerView, exit: WorkerExit, host: Seq<char>)
    requires
        l.lifecycle != Lifecycle::Running,
    ensures
        l.admission() == Admission::Stop,
        l.after_offer() == l,
        l.after_join(exit).admission() == Admission::Stop,
        l.after_spawn_failure().admission() == Admission::Stop,
        (LedgerView { evidence: l.evidence.after_refusal(host), ..l }).admission()
            == Admission::Stop,
{
}

/// Overload is never taken for a refusal: an offer changes no count but that
/// of the overloaded connections.
pub proof fn law_overload_is_no_refusal(l: LedgerView)
    ensures
        l.after_offer().evidence.refused == l.evidence.refused,
        l.after_offer().evidence.omitted_refused == l.evidence.omitted_refused,
        l.after_offer().evidence.accepted == l.evidence.accepted,
        l.after_offer().evidence.capacity_rejects == l.evidence.capacity_rejects + if l.admission()
            == Admission::Overloaded {
            1int
        } else {
            0
        },
{
}

} // verus!
