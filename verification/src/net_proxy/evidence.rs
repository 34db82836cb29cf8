//! The bounded account that the proxy keeps of what it did.

use vstd::prelude::*;
use vstd::string::*;
use vstd::utf8::encode_utf8;

use crate::context::copy_strings;
use crate::sets::{ascending, in_order, lemma_members_contains, views, OrderedSet};
use crate::text::{byte_len, decimal, decimal_of};

verus! {

/// The most refused hosts that the account retains. Those past the bound are
/// counted, never silently dropped.
pub const MAX_REFUSED_HOSTS: usize = 64;

/// The most bytes of one retained host. A longer one is counted as omitted
/// rather than cut, so that no two hosts fall together.
pub const MAX_REFUSED_HOST_BYTES: usize = 255;

/// The terminal account of a proxy.
#[derive(Debug, PartialEq, Eq)]
pub struct ProxyFinalEvidence {
    /// The distinct refused hosts, in order, within the bounds.
    pub refused_hosts: Vec<String>,
    /// Refusals that are not among `refused_hosts` because of the bounds.
    pub omitted_refused_attempts: u64,
    /// Connections handed to a worker.
    pub accepted: u64,
    /// Connections whose worker returned.
    pub completed: u64,
    /// Connections refused for want of a free worker.
    pub capacity_rejects: u64,
    /// Completed connections that shutdown closed first.
    pub shutdown_aborts: u64,
    /// Workers that could not be started.
    pub worker_spawn_failures: u64,
    /// Workers that panicked.
    pub worker_panics: u64,
    /// The most workers at a time.
    pub worker_cap: usize,
    /// The most workers that were active at a time.
    pub high_water_workers: usize,
}

/// Why a proxy has no complete account.
#[derive(Debug, PartialEq, Eq)]
pub enum ProxyFinalizeError {
    /// The accepting thread itself failed.
    SupervisorFailed {
        /// What happened.
        reason: String,
    },
    /// A worker could not be started or panicked, so completeness cannot be
    /// shown.
    Incomplete {
        /// What was gathered; it is not terminal.
        partial: ProxyFinalEvidence,
        /// What happened.
        reason: String,
    },
}

impl ProxyFinalizeError {
    /// The text that [`ProxyFinalizeError::message`] gives.
    pub open spec fn message_text(self) -> Seq<char> {
        match self {
            ProxyFinalizeError::SupervisorFailed { reason } => {
                "egress proxy accept supervisor failed: "@ + reason@
            },
            ProxyFinalizeError::Incomplete { reason, .. } => {
                "egress proxy finalization is incomplete: "@ + reason@
            },
        }
    }

    /// The failure in words.
    pub fn message(&self) -> (r: String)
        ensures
            r@ == self.message_text(),
    {
        match self {
            ProxyFinalizeError::SupervisorFailed { reason } => {
                "egress proxy accept supervisor failed: ".to_owned().concat(reason.as_str())
            },
            ProxyFinalizeError::Incomplete { reason, .. } => {
                "egress proxy finalization is incomplete: ".to_owned().concat(reason.as_str())
            },
        }
    }
}

/// Why one more host is refused in a list of retained hosts, if it is.
pub open spec fn bound_refusal(kept: nat, host: Seq<char>) -> Option<Seq<char>> {
    if kept >= MAX_REFUSED_HOSTS {
        Some("refused_hosts exceeds the "@ + decimal(MAX_REFUSED_HOSTS as nat) + "-host bound"@)
    } else if encode_utf8(host).len() > MAX_REFUSED_HOST_BYTES {
        Some("refused_hosts entry exceeds the "@ + decimal(MAX_REFUSED_HOST_BYTES as nat) + "-byte bound"@)
    } else {
        None
    }
}

/// Add one host to a list that is being read in, unless a bound is reached.
pub fn push_bounded_host(hosts: &mut Vec<String>, host: String) -> (r: Result<(), String>)
    ensures
        match bound_refusal(old(hosts)@.len(), host@) {
            None => r is Ok && final(hosts)@ == old(hosts)@.push(host),
            Some(reason) => r is Err && r->Err_0@ == reason && final(hosts)@ == old(hosts)@,
        },
{
    if hosts.len() >= MAX_REFUSED_HOSTS {
        return Err(
            "refused_hosts exceeds the ".to_owned().concat(decimal_of(MAX_REFUSED_HOSTS as u64).as_str()).concat(
                "-host bound",
            ),
        );
    }
    if byte_len(host.as_str()) > MAX_REFUSED_HOST_BYTES {
        return Err(
            "refused_hosts entry exceeds the ".to_owned().concat(decimal_of(MAX_REFUSED_HOST_BYTES as u64).as_str()).concat(
                "-byte bound",
            ),
        );
    }
    hosts.push(host);
    Ok(())
}

/// The account while the proxy runs.
#[derive(Debug)]
pub struct Evidence {
    refused: OrderedSet<String>,
    omitted_refused: u64,
    accepted: u64,
    completed: u64,
    capacity_rejects: u64,
    shutdown_aborts: u64,
    worker_spawn_failures: u64,
    worker_panics: u64,
}

/// The model of [`Evidence`].
#[verifier::ext_equal]
pub ghost struct EvidenceView {
    pub refused: Set<Seq<char>>,
    pub omitted_refused: int,
    pub accepted: int,
    pub completed: int,
    pub capacity_rejects: int,
    pub shutdown_aborts: int,
    pub worker_spawn_failures: int,
    pub worker_panics: int,
}

impl View for Evidence {
    type V = EvidenceView;

    closed spec fn view(&self) -> EvidenceView {
        EvidenceView {
            refused: self.refused@,
            omitted_refused: self.omitted_refused as int,
            accepted: self.accepted as int,
            completed: self.completed as int,
            capacity_rejects: self.capacity_rejects as int,
            shutdown_aborts: self.shutdown_aborts as int,
            worker_spawn_failures: self.worker_spawn_failures as int,
            worker_panics: self.worker_panics as int,
        }
    }
}

impl EvidenceView {
    /// Nothing happened.
    pub open spec fn nothing() -> EvidenceView {
        EvidenceView {
            refused: Set::empty(),
            omitted_refused: 0,
            accepted: 0,
            completed: 0,
            capacity_rejects: 0,
            shutdown_aborts: 0,
            worker_spawn_failures: 0,
            worker_panics: 0,
        }
    }

    /// The retained hosts are within the bounds.
    pub open spec fn bounded(self) -> bool {
        &&& self.refused.finite()
        &&& self.refused.len() <= MAX_REFUSED_HOSTS
        &&& forall|host: Seq<char>| #[trigger]
            self.refused.contains(host) ==> encode_utf8(host).len() <= MAX_REFUSED_HOST_BYTES
    }

    /// The account after one more refusal: a host that is retained carries no
    /// new information; one past the bounds is counted as omitted.
    pub open spec fn after_refusal(self, host: Seq<char>) -> EvidenceView {
        if self.refused.contains(host) {
            self
        } else if encode_utf8(host).len() > MAX_REFUSED_HOST_BYTES || self.refused.len()
            >= MAX_REFUSED_HOSTS {
            EvidenceView { omitted_refused: self.omitted_refused + 1, ..self }
        } else {
            EvidenceView { refused: self.refused.insert(host), ..self }
        }
    }

    /// No counter is at its limit.
    pub open spec fn has_room(self) -> bool {
        self.omitted_refused < u64::MAX && self.accepted < u64::MAX && self.completed < u64::MAX
            && self.capacity_rejects < u64::MAX && self.shutdown_aborts < u64::MAX
            && self.worker_spawn_failures < u64::MAX && self.worker_panics < u64::MAX
    }
}

/// The hosts are as an account hands them out: in strictly ascending order, so
/// that none is repeated, and within the bounds.
pub open spec fn orderly(hosts: Seq<String>) -> bool {
    &&& ascending(hosts)
    &&& hosts.len() <= MAX_REFUSED_HOSTS
    &&& forall|i: int|
        0 <= i < hosts.len() ==> encode_utf8((#[trigger] hosts[i])@).len()
            <= MAX_REFUSED_HOST_BYTES
}

/// The terminal account says what the running account and the worker figures
/// say.
pub open spec fn is_snapshot(
    e: ProxyFinalEvidence,
    account: EvidenceView,
    worker_cap: int,
    high_water_workers: int,
) -> bool {
    &&& views(e.refused_hosts@) == in_order::<String>(account.refused)
    &&& e.omitted_refused_attempts == account.omitted_refused
    &&& e.accepted == account.accepted
    &&& e.completed == account.completed
    &&& e.capacity_rejects == account.capacity_rejects
    &&& e.shutdown_aborts == account.shutdown_aborts
    &&& e.worker_spawn_failures == account.worker_spawn_failures
    &&& e.worker_panics == account.worker_panics
    &&& e.worker_cap == worker_cap
    &&& e.high_water_workers == high_water_workers
}

impl Evidence {
    #[verifier::type_invariant]
    spec fn within_bounds(self) -> bool {
        self@.bounded()
    }

    /// The account in which nothing happened.
    pub fn new() -> (r: Self)
        ensures
            r@ == EvidenceView::nothing(),
    {
        Evidence {
            refused: OrderedSet::new(),
            omitted_refused: 0,
            accepted: 0,
            completed: 0,
            capacity_rejects: 0,
            shutdown_aborts: 0,
            worker_spawn_failures: 0,
            worker_panics: 0,
        }
    }

    /// Whether no counter is at its limit.
    pub fn has_room(&self) -> (r: bool)
        ensures
            r == self@.has_room(),
    {
        self.omitted_refused < u64::MAX && self.accepted < u64::MAX && self.completed < u64::MAX
            && self.capacity_rejects < u64::MAX && self.shutdown_aborts < u64::MAX
            && self.worker_spawn_failures < u64::MAX && self.worker_panics < u64::MAX
    }

    /// Record one refused host.
    pub fn record_refused(&mut self, host: &str)
        requires
            old(self)@.omitted_refused < u64::MAX,
        ensures
            final(self)@ == old(self)@.after_refusal(host@),
            final(self)@.bounded(),
    {
        proof {
            use_type_invariant(&*self);
        }
        let owned: String = host.to_owned();
        if self.refused.contains(&owned) {
            return;
        }
        if byte_len(host) > MAX_REFUSED_HOST_BYTES || self.refused.len() >= MAX_REFUSED_HOSTS {
            self.omitted_refused = self.omitted_refused + 1;
            return;
        }
        let mut refused: OrderedSet<String> = OrderedSet::new();
        std::mem::swap(&mut refused, &mut self.refused);
        refused.insert(owned);
        self.refused = refused;
    }

    /// Count one connection handed to a worker.
    pub fn count_accepted(&mut self)
        requires
            old(self)@.accepted < u64::MAX,
        ensures
            final(self)@ == (EvidenceView {
                accepted: old(self)@.accepted + 1,
                ..old(self)@
            }),
    {
        proof {
            use_type_invariant(&*self);
        }
        self.accepted = self.accepted + 1;
    }

    /// Count one connection whose worker returned.
    pub fn count_completed(&mut self)
        requires
            old(self)@.completed < u64::MAX,
        ensures
            final(self)@ == (EvidenceView {
                completed: old(self)@.completed + 1,
                ..old(self)@
            }),
    {
        proof {
            use_type_invariant(&*self);
        }
        self.completed = self.completed + 1;
    }

    /// Count one connection that shutdown closed first.
    pub fn count_abort(&mut self)
        requires
            old(self)@.shutdown_aborts < u64::MAX,
        ensures
            final(self)@ == (EvidenceView {
                shutdown_aborts: old(self)@.shutdown_aborts + 1,
                ..old(self)@
            }),
    {
        proof {
            use_type_invariant(&*self);
        }
        self.shutdown_aborts = self.shutdown_aborts + 1;
    }

    /// Count one connection refused for want of a free worker.
    pub fn count_overload(&mut self)
        requires
            old(self)@.capacity_rejects < u64::MAX,
        ensures
            final(self)@ == (EvidenceView {
                capacity_rejects: old(self)@.capacity_rejects + 1,
                ..old(self)@
            }),
    {
        proof {
            use_type_invariant(&*self);
        }
        self.capacity_rejects = self.capacity_rejects + 1;
    }

    /// Count one worker that could not be started.
    pub fn count_spawn_failure(&mut self)
        requires
            old(self)@.worker_spawn_failures < u64::MAX,
        ensures
            final(self)@ == (EvidenceView {
                worker_spawn_failures: old(self)@.worker_spawn_failures + 1,
                ..old(self)@
            }),
    {
        proof {
            use_type_invariant(&*self);
        }
        self.worker_spawn_failures = self.worker_spawn_failures + 1;
    }

    /// Count one worker that panicked.
    pub fn count_panic(&mut self)
        requires
            old(self)@.worker_panics < u64::MAX,
        ensures
            final(self)@ == (EvidenceView {
                worker_panics: old(self)@.worker_panics + 1,
                ..old(self)@
            }),
    {
        proof {
            use_type_invariant(&*self);
        }
        self.worker_panics = self.worker_panics + 1;
    }

    /// The retained hosts, in order.
    pub fn refused_sorted(&self) -> (r: Vec<String>)
        ensures
            views(r@) == in_order::<String>(self@.refused),
            views(r@).to_set() == self@.refused,
            orderly(r@),
    {
        proof {
            use_type_invariant(self);
        }
        let r: Vec<String> = copy_strings(self.refused.as_vec());
        proof {
            let hosts = views(r@);
            assert(hosts.len() == r@.len());
            assert forall|i: int, j: int| 0 <= i < j < hosts.len() implies hosts[i] != hosts[j] by {
                <String as crate::sets::SetItem>::below_irreflexive(hosts[i]);
            }
            hosts.unique_seq_to_set();
            assert forall|i: int| 0 <= i < r@.len() implies encode_utf8((#[trigger] r@[i])@).len()
                <= MAX_REFUSED_HOST_BYTES by {
                assert(hosts[i] == r@[i]@);
                lemma_members_contains(r@, r@[i]@);
                assert(self@.refused.contains(r@[i]@));
            }
        }
        r
    }

    /// The account as it stands.
    pub fn snapshot(&self, worker_cap: usize, high_water_workers: usize) -> (r: ProxyFinalEvidence)
        ensures
            is_snapshot(r, self@, worker_cap as int, high_water_workers as int),
            orderly(r.refused_hosts@),
            self@.bounded(),
    {
        proof {
            use_type_invariant(self);
        }
        ProxyFinalEvidence {
            refused_hosts: self.refused_sorted(),
            omitted_refused_attempts: self.omitted_refused,
            accepted: self.accepted,
            completed: self.completed,
            capacity_rejects: self.capacity_rejects,
            shutdown_aborts: self.shutdown_aborts,
            worker_spawn_failures: self.worker_spawn_failures,
            worker_panics: self.worker_panics,
            worker_cap,
            high_water_workers,
        }
    }
}

/// Every refusal is accounted for: the host is retained afterwards, or the
/// count of omitted refusals grew by one; and no retained host is ever lost.
pub proof fn law_no_refusal_is_dropped(account: EvidenceView, host: Seq<char>)
    requires
        account.bounded(),
    ensures
        account.after_refusal(host).bounded(),
        account.after_refusal(host).refused.contains(host) || account.after_refusal(
            host,
        ).omitted_refused == account.omitted_refused + 1,
        account.refused.subset_of(account.after_refusal(host).refused),
{
}

} // verus!
