//! What a connection is answered and what is kept of it, said over the values
//! that go in and come out.

use vstd::prelude::*;
use vstd::utf8::encode_utf8;

use crate::net_proxy::evidence::{
    push_bounded_host, Evidence, ProxyFinalEvidence, ProxyFinalizeError,
};
use crate::net_proxy::ledger::{Admission, Lifecycle, ProxyLedger, WorkerExit};
use crate::net_proxy::request::{parse_request_line, Target};
use crate::net_proxy::session::{
    bytes_of, copy_step, open_session, proxy_env, response_text, CopyEvent, HeaderBlock, HostPolicy,
    NetAuditEvent, NetDecision, NetKind, Opening, Preamble, Requested, SessionEnd,
};
use crate::sets::{lemma_members_contains, views};
use crate::text::decimal;

verus! {

/// The bytes of the lines together.
pub open spec fn length_of(lines: Seq<Seq<char>>) -> nat {
    lines.fold_left(0nat, |n: nat, l: Seq<char>| n + encode_utf8(l).len())
}

proof fn lemma_length_of(lines: Seq<Seq<char>>)
    ensures
        bytes_of(lines) == length_of(lines),
    decreases lines.len(),
{
    reveal_with_fuel(Seq::fold_left, 2);
    if lines.len() > 0 {
        lemma_length_of(lines.drop_last());
        assert(length_of(lines) == length_of(lines.drop_last()) + encode_utf8(lines.last()).len());
    }
}

/// A header block starts empty and open. An open block keeps every line, in
/// order, until a blank one, or until its lines would together exceed 8192
/// bytes; either closes it, and is not kept. A closed block does not change.
pub proof fn law_a_header_block_keeps_lines_within_its_bound(
    fresh: HeaderBlock,
    block: HeaderBlock,
    line: String,
    r: HeaderBlock,
    closed: bool,
)
    requires
        call_ensures(HeaderBlock::new, (), fresh),
        call_ensures(HeaderBlock::with_line, (block, line), r),
        call_ensures(HeaderBlock::is_closed, (&r,), closed),
    ensures
        fresh@.lines.len() == 0 && !fresh@.closed,
        closed == r@.closed,
        block@.closed ==> r@ == block@,
        !block@.closed ==> {
            let blank = line@.len() == 0 || line@ == seq!['\n'] || line@ == seq!['\r', '\n'];
            let fits = length_of(block@.lines) + encode_utf8(line@).len() <= 8192;
            &&& closed <==> blank || !fits
            &&& r@.lines == (if blank || !fits {
                block@.lines
            } else {
                block@.lines.push(line@)
            })
        },
{
    reveal_strlit("\r\n");
    reveal_strlit("\n");
    assert("\r\n"@ =~= seq!['\r', '\n']);
    assert("\n"@ =~= seq!['\n']);
    lemma_length_of(block@.lines);
}

/// An answer is a status line, headers, a blank line and a body; the length in
/// its headers is the number of bytes of the body, and the body says the
/// status.
pub proof fn law_an_answer_gives_the_length_of_its_body(code: u16, reason: &str, r: String)
    requires
        call_ensures(response_text, (code, reason), r),
    ensures
        exists|body: Seq<char>|
            body == decimal(code as nat) + seq![' '] + reason@ + seq!['\n'] && r@
                == "HTTP/1.1 "@ + decimal(code as nat) + seq![' '] + reason@
                + "\r\nContent-Length: "@ + decimal(#[trigger] encode_utf8(body).len() as nat)
                + "\r\nConnection: close\r\n\r\n"@ + body,
{
    reveal_strlit(" ");
    reveal_strlit("\n");
    assert(" "@ =~= seq![' ']);
    assert("\n"@ =~= seq!['\n']);
    let body = decimal(code as nat) + seq![' '] + reason@ + seq!['\n'];
    assert(r@ =~= "HTTP/1.1 "@ + decimal(code as nat) + seq![' '] + reason@
        + "\r\nContent-Length: "@ + decimal(encode_utf8(body).len() as nat)
        + "\r\nConnection: close\r\n\r\n"@ + body);
}

/// A policy admits exactly the hosts that it was made with, by their exact
/// names.
pub proof fn law_a_policy_admits_its_hosts(
    hosts: Vec<String>,
    policy: HostPolicy,
    host: &str,
    r: bool,
)
    requires
        call_ensures(HostPolicy::new, (hosts,), policy),
        call_ensures(HostPolicy::allows, (&policy, host), r),
    ensures
        r <==> exists|i: int| 0 <= i < hosts@.len() && (#[trigger] hosts@[i])@ == host@,
{
    lemma_members_contains(hosts@, host@);
}

/// A connection is decided by its first line: what is not understood is
/// answered 400 and leaves no trace; an admitted host is dialled, as it was
/// asked for; any other is answered 403 and entered among the refused hosts, or
/// counted where the bounds do not allow that. Nothing else in the books
/// changes.
pub proof fn law_a_connection_is_decided_by_its_host(
    line: &str,
    policy: &HostPolicy,
    ledger: &mut ProxyLedger,
    r: Opening,
    target: Option<Target>,
    malformed: &str,
    answer400: String,
    forbidden: &str,
    answer403: String,
)
    requires
        call_ensures(open_session, (line, policy, ledger), r),
        call_ensures(parse_request_line, (line,), target),
        malformed@ == "Bad Request"@,
        call_ensures(response_text, (400u16, malformed), answer400),
        forbidden@ == "Forbidden"@,
        call_ensures(response_text, (403u16, forbidden), answer403),
    ensures
        r is Malformed <==> target is None,
        r is Malformed ==> r->Malformed_response@ == answer400@,
        target is Some ==> {
            let host = match target->0 {
                Target::Connect { host, .. } => host@,
                Target::Http { host, .. } => host@,
            };
            &&& r is Dial <==> policy@.contains(host)
            &&& r is Denied <==> !policy@.contains(host)
            &&& r is Dial ==> r->Dial_requested@ == target->0@
            &&& r is Denied ==> {
                &&& r->Denied_requested@ == target->0@
                &&& r->Denied_response@ == answer403@
                &&& final(ledger)@.evidence.refused.contains(host)
                    || final(ledger)@.evidence.omitted_refused
                    == old(ledger)@.evidence.omitted_refused + 1
                &&& forall|h: Seq<char>| #[trigger]
                    final(ledger)@.evidence.refused.contains(h) ==> h == host
                        || old(ledger)@.evidence.refused.contains(h)
            }
        },
        !(r is Denied) ==> final(ledger)@ == old(ledger)@,
        forall|h: Seq<char>|
            old(ledger)@.evidence.refused.contains(h)
                ==> #[trigger] final(ledger)@.evidence.refused.contains(h),
        final(ledger)@.lifecycle == old(ledger)@.lifecycle,
        final(ledger)@.active == old(ledger)@.active,
        final(ledger)@.next_id == old(ledger)@.next_id,
        final(ledger)@.cap == old(ledger)@.cap,
        final(ledger)@.high_water == old(ledger)@.high_water,
        final(ledger)@.evidence.accepted == old(ledger)@.evidence.accepted,
        final(ledger)@.evidence.completed == old(ledger)@.evidence.completed,
        final(ledger)@.evidence.capacity_rejects == old(ledger)@.evidence.capacity_rejects,
        final(ledger)@.evidence.shutdown_aborts == old(ledger)@.evidence.shutdown_aborts,
        final(ledger)@.evidence.worker_panics == old(ledger)@.evidence.worker_panics,
        final(ledger)@.evidence.worker_spawn_failures
            == old(ledger)@.evidence.worker_spawn_failures,
{
}

/// A refused host is retained where it already was, or where it is at most 255
/// bytes long and fewer than 64 are retained; otherwise it is counted as
/// omitted, once for each refusal. What is retained stays.
pub proof fn law_a_refused_host_is_retained_within_the_bounds(account: &mut Evidence, host: &str)
    requires
        call_ensures(Evidence::record_refused, (account, host), ()),
    ensures
        ({
            let before = old(account)@;
            let after = final(account)@;
            let known = before.refused.contains(host@);
            let fits = encode_utf8(host@).len() <= 255 && before.refused.len() < 64;
            &&& forall|h: Seq<char>| #[trigger]
                after.refused.contains(h) <==> before.refused.contains(h) || (h == host@ && fits)
            &&& after.omitted_refused == before.omitted_refused + (if known || fits {
                0int
            } else {
                1
            })
            &&& after.accepted == before.accepted
            &&& after.completed == before.completed
            &&& after.capacity_rejects == before.capacity_rejects
            &&& after.shutdown_aborts == before.shutdown_aborts
            &&& after.worker_spawn_failures == before.worker_spawn_failures
            &&& after.worker_panics == before.worker_panics
        }),
{
}

/// Reading hosts in keeps the same bounds: 64 of them, of 255 bytes each.
pub proof fn law_hosts_are_read_in_within_the_bounds(
    hosts: &mut Vec<String>,
    host: String,
    r: Result<(), String>,
)
    requires
        call_ensures(push_bounded_host, (hosts, host), r),
    ensures
        r is Ok <==> old(hosts)@.len() < 64 && encode_utf8(host@).len() <= 255,
        r is Ok ==> final(hosts)@ == old(hosts)@.push(host),
        r is Err ==> final(hosts)@ == old(hosts)@,
{
}

/// An offered connection is served while the proxy runs and a worker is free;
/// it is overloaded, and counted as that alone, while the proxy runs and none
/// is; and nothing is served otherwise.
pub proof fn law_a_connection_is_served_while_a_worker_is_free(
    ledger: &mut ProxyLedger,
    r: Admission,
)
    requires
        call_ensures(ProxyLedger::offer, (ledger,), r),
    ensures
        r == Admission::Serve <==> old(ledger)@.lifecycle == Lifecycle::Running
            && old(ledger)@.active < old(ledger)@.cap,
        r == Admission::Overloaded <==> old(ledger)@.lifecycle == Lifecycle::Running
            && old(ledger)@.active >= old(ledger)@.cap,
        r != Admission::Overloaded ==> final(ledger)@ == old(ledger)@,
        r == Admission::Overloaded ==> {
            let before = old(ledger)@;
            let after = final(ledger)@;
            &&& after.evidence.capacity_rejects == before.evidence.capacity_rejects + 1
            &&& after.evidence.refused == before.evidence.refused
            &&& after.evidence.omitted_refused == before.evidence.omitted_refused
            &&& after.evidence.accepted == before.evidence.accepted
            &&& after.evidence.completed == before.evidence.completed
            &&& after.evidence.shutdown_aborts == before.evidence.shutdown_aborts
            &&& after.evidence.worker_spawn_failures == before.evidence.worker_spawn_failures
            &&& after.evidence.worker_panics == before.evidence.worker_panics
            &&& after.lifecycle == before.lifecycle && after.active == before.active
                && after.next_id == before.next_id && after.cap == before.cap && after.high_water
                == before.high_water
        },
{
}

/// A worker that starts is counted as accepted and active and has a number of
/// its own; one that is joined is no longer active and has exactly one outcome;
/// one that could not be started is counted as that and nothing else. The high
/// water mark is the most that were ever active.
pub proof fn law_workers_are_counted_once(
    start: &mut ProxyLedger,
    id: u64,
    failed: &mut ProxyLedger,
    end: &mut ProxyLedger,
    exit: WorkerExit,
)
    requires
        call_ensures(ProxyLedger::spawned, (start,), id),
        call_ensures(ProxyLedger::spawn_failed, (failed,), ()),
        call_ensures(ProxyLedger::joined, (end, exit), ()),
    ensures
        ({
            let before = old(start)@;
            let after = final(start)@;
            &&& id == before.next_id && after.next_id > id
            &&& after.active == before.active + 1
            &&& after.evidence.accepted == before.evidence.accepted + 1
            &&& after.high_water >= before.high_water && after.high_water >= after.active && (
            after.high_water == before.high_water || after.high_water == after.active)
            &&& after.evidence.completed == before.evidence.completed
            &&& after.evidence.worker_panics == before.evidence.worker_panics
            &&& after.evidence.worker_spawn_failures == before.evidence.worker_spawn_failures
            &&& after.evidence.shutdown_aborts == before.evidence.shutdown_aborts
            &&& after.evidence.capacity_rejects == before.evidence.capacity_rejects
            &&& after.evidence.refused == before.evidence.refused
            &&& after.lifecycle == before.lifecycle && after.cap == before.cap
        }),
        ({
            let before = old(failed)@;
            let after = final(failed)@;
            &&& after.evidence.worker_spawn_failures == before.evidence.worker_spawn_failures + 1
            &&& after.evidence.accepted == before.evidence.accepted
            &&& after.evidence.completed == before.evidence.completed
            &&& after.evidence.worker_panics == before.evidence.worker_panics
            &&& after.evidence.shutdown_aborts == before.evidence.shutdown_aborts
            &&& after.evidence.capacity_rejects == before.evidence.capacity_rejects
            &&& after.evidence.refused == before.evidence.refused
            &&& after.evidence.omitted_refused == before.evidence.omitted_refused
            &&& after.active == before.active && after.next_id == before.next_id
                && after.high_water == before.high_water && after.lifecycle == before.lifecycle
                && after.cap == before.cap
        }),
        ({
            let before = old(end)@;
            let after = final(end)@;
            &&& after.active == before.active - 1
            &&& after.evidence.completed - before.evidence.completed + (
            after.evidence.worker_panics - before.evidence.worker_panics) == 1
            &&& after.evidence.worker_panics == before.evidence.worker_panics + (if exit
                == WorkerExit::Panicked {
                1int
            } else {
                0
            })
            &&& after.evidence.shutdown_aborts == before.evidence.shutdown_aborts + (if exit
                == WorkerExit::Aborted {
                1int
            } else {
                0
            })
            &&& after.evidence.accepted == before.evidence.accepted
            &&& after.evidence.worker_spawn_failures == before.evidence.worker_spawn_failures
            &&& after.evidence.capacity_rejects == before.evidence.capacity_rejects
            &&& after.evidence.refused == before.evidence.refused
            &&& after.evidence.omitted_refused == before.evidence.omitted_refused
            &&& after.next_id == before.next_id && after.high_water == before.high_water
                && after.lifecycle == before.lifecycle && after.cap == before.cap
        }),
{
}

/// A terminal account exists only where nothing failed on the way, and it says
/// what was counted: all that was accepted was completed, and each refused host
/// is in it once, in ascending order.
pub proof fn law_a_terminal_account_is_complete(
    ledger: &mut ProxyLedger,
    supervisor_panicked: bool,
    r: Result<ProxyFinalEvidence, ProxyFinalizeError>,
)
    requires
        call_ensures(ProxyLedger::finalize, (ledger, supervisor_panicked), r),
        old(ledger)@.consistent(),
        old(ledger)@.active == 0,
    ensures
        r is Ok <==> !supervisor_panicked && old(ledger)@.evidence.worker_panics == 0
            && old(ledger)@.evidence.worker_spawn_failures <= 0,
        r is Err ==> (r->Err_0 is SupervisorFailed <==> supervisor_panicked),
        final(ledger)@.lifecycle == Lifecycle::Quiescent,
        final(ledger)@.evidence == old(ledger)@.evidence,
        r is Ok ==> {
            let e = r->Ok_0;
            let account = old(ledger)@.evidence;
            &&& e.accepted == account.accepted && e.completed == account.accepted
            &&& e.capacity_rejects == account.capacity_rejects
            &&& e.shutdown_aborts == account.shutdown_aborts
            &&& e.omitted_refused_attempts == account.omitted_refused
            &&& e.worker_cap == old(ledger)@.cap
            &&& e.high_water_workers == old(ledger)@.high_water
            &&& forall|h: Seq<char>| #[trigger]
                account.refused.contains(h) <==> exists|i: int|
                    0 <= i < e.refused_hosts@.len() && (#[trigger] e.refused_hosts@[i])@ == h
            &&& forall|i: int, j: int|
                0 <= i < j < e.refused_hosts@.len() ==> (#[trigger] e.refused_hosts@[i])@
                    != (#[trigger] e.refused_hosts@[j])@
        },
{
    if r is Ok {
        let e = r->Ok_0;
        let account = old(ledger)@.evidence;
        let hosts = views(e.refused_hosts@);
        crate::sets::law_a_set_in_order_is_that_set::<String>(account.refused);
        assert(hosts.len() == e.refused_hosts@.len());
        assert forall|h: Seq<char>| #[trigger] account.refused.contains(h) <==> exists|i: int|
            0 <= i < e.refused_hosts@.len() && (#[trigger] e.refused_hosts@[i])@ == h by {
            assert(hosts.contains(h) <==> account.refused.contains(h));
            if hosts.contains(h) {
                let i = choose|i: int| 0 <= i < hosts.len() && hosts[i] == h;
                assert(e.refused_hosts@[i]@ == h);
            }
            if exists|i: int|
                0 <= i < e.refused_hosts@.len() && (#[trigger] e.refused_hosts@[i])@ == h {
                let i = choose|i: int|
                    0 <= i < e.refused_hosts@.len() && (#[trigger] e.refused_hosts@[i])@ == h;
                assert(hosts[i] == h);
            }
        }
        assert forall|i: int, j: int| 0 <= i < j < e.refused_hosts@.len() implies (
        #[trigger] e.refused_hosts@[i])@ != (#[trigger] e.refused_hosts@[j])@ by {
            assert(hosts[i] == e.refused_hosts@[i]@ && hosts[j] == e.refused_hosts@[j]@);
            <String as crate::sets::SetItem>::below_irreflexive(hosts[i]);
        }
    }
}

/// The record of a connection names its host, its port and its kind, and counts
/// bytes only where they were passed on. A tunnel that is opened is answered
/// with a bare status line, and its origin is sent nothing.
pub proof fn law_a_connection_is_recorded_as_it_went(
    requested: &Requested,
    end: SessionEnd,
    ts_ms: u64,
    dur_ms: u64,
    r: NetAuditEvent,
    lines: &Vec<String>,
    preamble: Preamble,
)
    requires
        call_ensures(Requested::audit, (requested, end, ts_ms, dur_ms), r),
        call_ensures(Requested::preamble, (requested, lines), preamble),
    ensures
        r.kind == NetKind::Connect <==> requested@ is Connect,
        requested@ is Connect ==> r.host@ == requested@->Connect_host && r.port
            == requested@->Connect_port,
        requested@ is Http ==> r.host@ == requested@->Http_host && r.port == requested@->Http_port,
        r.ts_ms == ts_ms && r.dur_ms == dur_ms,
        r.decision == NetDecision::Denied <==> end is Denied,
        r.decision == NetDecision::Error <==> end is Unreachable,
        end is Finished ==> r.bytes_up == end->bytes_up && r.bytes_down == end->bytes_down,
        !(end is Finished) ==> r.bytes_up == 0 && r.bytes_down == 0,
        requested@ is Connect ==> preamble.to_origin@.len() == 0 && preamble.to_client@
            == "HTTP/1.1 200 Connection Established\r\n\r\n"@,
{
}

/// Copying counts exactly what was written, and goes on after what was written
/// and after an interruption only.
pub proof fn law_copying_counts_what_was_written(total: u64, event: CopyEvent, r: (u64, bool))
    requires
        call_ensures(copy_step, (total, event), r),
        event is Read ==> total + event->bytes <= u64::MAX,
    ensures
        r.0 == total + (if event is Read && event->written {
            event->bytes as int
        } else {
            0
        }),
        r.1 <==> event is Interrupted || (event is Read && event->written && event->bytes > 0),
{
}

/// Every variable that routes a child through a proxy names this one, and both
/// spellings of each are there.
pub proof fn law_a_child_is_routed_through_the_proxy(addr: &str, r: Vec<(String, String)>)
    requires
        call_ensures(proxy_env, (addr,), r),
    ensures
        forall|i: int|
            0 <= i < r@.len() ==> (#[trigger] r@[i]).1@ == seq![
                'h',
                't',
                't',
                'p',
                ':',
                '/',
                '/',
            ] + addr@,
        exists|i: int| 0 <= i < r@.len() && (#[trigger] r@[i]).0@ == "http_proxy"@,
        exists|i: int| 0 <= i < r@.len() && (#[trigger] r@[i]).0@ == "https_proxy"@,
        exists|i: int| 0 <= i < r@.len() && (#[trigger] r@[i]).0@ == "all_proxy"@,
        exists|i: int| 0 <= i < r@.len() && (#[trigger] r@[i]).0@ == "HTTP_PROXY"@,
        exists|i: int| 0 <= i < r@.len() && (#[trigger] r@[i]).0@ == "HTTPS_PROXY"@,
        exists|i: int| 0 <= i < r@.len() && (#[trigger] r@[i]).0@ == "ALL_PROXY"@,
{
    reveal_strlit("http://");
    assert("http://"@ =~= seq!['h', 't', 't', 'p', ':', '/', '/']);
    assert(r@[0].0@ == "http_proxy"@);
    assert(r@[1].0@ == "https_proxy"@);
    assert(r@[2].0@ == "all_proxy"@);
    assert(r@[3].0@ == "HTTP_PROXY"@);
    assert(r@[4].0@ == "HTTPS_PROXY"@);
    assert(r@[5].0@ == "ALL_PROXY"@);
}

/// A proxy starts running with nothing counted; shutting down ends the running
/// and changes nothing else, and what is past it stays.
pub proof fn law_a_proxy_starts_with_empty_books(
    cap: usize,
    fresh: ProxyLedger,
    account: Evidence,
    ledger: &mut ProxyLedger,
)
    requires
        call_ensures(ProxyLedger::new, (cap,), fresh),
        call_ensures(Evidence::new, (), account),
        call_ensures(ProxyLedger::begin_shutdown, (ledger,), ()),
    ensures
        fresh@.lifecycle == Lifecycle::Running && fresh@.active == 0 && fresh@.high_water == 0
            && fresh@.cap == cap && fresh@.next_id == 0,
        fresh@.evidence == account@,
        account@.accepted == 0 && account@.completed == 0 && account@.capacity_rejects == 0
            && account@.shutdown_aborts == 0 && account@.worker_panics == 0
            && account@.worker_spawn_failures == 0 && account@.omitted_refused == 0,
        forall|h: Seq<char>| !#[trigger] account@.refused.contains(h),
        final(ledger)@.lifecycle != Lifecycle::Running,
        old(ledger)@.lifecycle != Lifecycle::Running ==> final(ledger)@ == old(ledger)@,
        final(ledger)@.evidence == old(ledger)@.evidence,
        final(ledger)@.active == old(ledger)@.active && final(ledger)@.next_id
            == old(ledger)@.next_id && final(ledger)@.cap == old(ledger)@.cap
            && final(ledger)@.high_water == old(ledger)@.high_water,
        old(ledger)@.lifecycle == Lifecycle::Running ==> final(ledger)@.lifecycle
            == Lifecycle::ShuttingDown,
{
}

/// A request says the host, the port and the kind that it was made of, and an
/// origin that is not reached is answered 502.
pub proof fn law_a_request_says_what_was_asked(
    requested: &Requested,
    host: &str,
    port: u16,
    kind: NetKind,
    reason: &str,
    unreachable: String,
    answer: String,
)
    requires
        call_ensures(Requested::host, (requested,), host),
        call_ensures(Requested::port, (requested,), port),
        call_ensures(Requested::kind, (requested,), kind),
        call_ensures(Requested::unreachable, (requested,), unreachable),
        reason@ == "Bad Gateway"@,
        call_ensures(response_text, (502u16, reason), answer),
    ensures
        requested@ is Connect ==> host@ == requested@->Connect_host && port
            == requested@->Connect_port && kind == NetKind::Connect,
        requested@ is Http ==> host@ == requested@->Http_host && port == requested@->Http_port
            && kind == NetKind::Http,
        unreachable@ == answer@,
{
}

} // verus!
