//! One proxied connection: what it asks for, what it is answered, what the
//! origin is sent, and what is recorded of it.

use vstd::prelude::*;
use vstd::string::*;
use vstd::utf8::encode_utf8;

use crate::net_proxy::ledger::{LedgerView, ProxyLedger};
use crate::net_proxy::request::{parse_request_line, parsed, Target, TargetView};
use crate::sets::{members, views, OrderedSet};
use crate::text::{
    byte_len, chars_of, decimal, decimal_of, equal_ignoring_case, same_ignoring_case, str_equal,
};

verus! {

/// The most bytes of a request line or a header block.
pub const MAX_HEAD: usize = 8192;

/// The kind of egress that was asked for.
#[derive(Debug, Clone, Copy, PartialEq, Eq, Structural)]
pub enum NetKind {
    /// An opaque tunnel.
    Connect,
    /// A plaintext forward.
    Http,
}

/// What the proxy decided on one connection.
#[derive(Debug, Clone, Copy, PartialEq, Eq, Structural)]
pub enum NetDecision {
    /// The host is granted and the connection was made.
    Allowed,
    /// The host is not granted.
    Denied,
    /// The host is granted, but the origin could not be reached.
    Error,
}

/// The record of one connection through the proxy.
#[derive(Debug, Clone, PartialEq, Eq)]
pub struct NetAuditEvent {
    /// Milliseconds since the Unix epoch when the connection was decided.
    pub ts_ms: u64,
    /// The requested host.
    pub host: String,
    /// The requested port.
    pub port: u16,
    /// Tunnel or forward.
    pub kind: NetKind,
    /// The outcome.
    pub decision: NetDecision,
    /// Bytes from the client to the origin.
    pub bytes_up: u64,
    /// Bytes from the origin to the client.
    pub bytes_down: u64,
    /// How long the connection lasted, in milliseconds.
    pub dur_ms: u64,
}

/// A destination for the records: the audit trail of the operator.
pub trait AuditSink {
    /// Record one connection.
    fn record(&self, event: &NetAuditEvent);
}

/// The sink that discards everything.
pub struct NullSink;

impl AuditSink for NullSink {
    fn record(&self, _event: &NetAuditEvent) {
    }
}

/// The hosts that the proxy admits, by their exact names.
#[derive(Debug)]
pub struct HostPolicy {
    hosts: OrderedSet<String>,
}

impl View for HostPolicy {
    type V = Set<Seq<char>>;

    closed spec fn view(&self) -> Set<Seq<char>> {
        self.hosts@
    }
}

impl HostPolicy {
    /// The policy that admits exactly these hosts.
    pub fn new(hosts: Vec<String>) -> (r: Self)
        ensures
            r@ == members(hosts@),
    {
        HostPolicy { hosts: OrderedSet::from_vec(hosts) }
    }

    /// Whether the host is admitted.
    pub fn allows(&self, host: &str) -> (r: bool)
        ensures
            r == self@.contains(host@),
    {
        self.hosts.contains(&host.to_owned())
    }
}

/// A minimal HTTP/1.1 answer that closes the connection.
pub open spec fn response(code: u16, reason: Seq<char>) -> Seq<char> {
    let status = decimal(code as nat) + " "@ + reason;
    let body = status + "\n"@;
    "HTTP/1.1 "@ + status + "\r\nContent-Length: "@ + decimal(encode_utf8(body).len() as nat)
        + "\r\nConnection: close\r\n\r\n"@ + body
}

/// The answer with this status.
pub fn response_text(code: u16, reason: &str) -> (r: String)
    ensures
        r@ == response(code, reason@),
{
    let status: String = decimal_of(code as u64).concat(" ").concat(reason);
    let body: String = status.clone().concat("\n");
    let length: usize = byte_len(body.as_str());
    "HTTP/1.1 ".to_owned().concat(status.as_str()).concat("\r\nContent-Length: ").concat(
        decimal_of(length as u64).as_str(),
    ).concat("\r\nConnection: close\r\n\r\n").concat(body.as_str())
}

/// The line ends a header block.
pub open spec fn is_blank(line: Seq<char>) -> bool {
    line == "\r\n"@ || line == "\n"@ || line.len() == 0
}

/// The number of bytes of the lines together.
pub open spec fn bytes_of(lines: Seq<Seq<char>>) -> nat
    decreases lines.len(),
{
    if lines.len() == 0 {
        0
    } else {
        bytes_of(lines.drop_last()) + encode_utf8(lines.last()).len()
    }
}

/// A header block that is being read.
#[derive(Debug)]
pub struct HeaderBlock {
    lines: Vec<String>,
    total: usize,
    closed: bool,
}

/// The model of [`HeaderBlock`].
#[verifier::ext_equal]
pub ghost struct HeaderView {
    pub lines: Seq<Seq<char>>,
    pub closed: bool,
}

impl View for HeaderBlock {
    type V = HeaderView;

    closed spec fn view(&self) -> HeaderView {
        HeaderView { lines: views(self.lines@), closed: self.closed }
    }
}

impl HeaderView {
    /// The block with one more line: a blank line closes it, and so does one
    /// that takes it past the bound; any other line is kept.
    pub open spec fn with_line(self, line: Seq<char>) -> HeaderView {
        if self.closed {
            self
        } else if is_blank(line) || bytes_of(self.lines) + encode_utf8(line).len() > MAX_HEAD {
            HeaderView { closed: true, ..self }
        } else {
            HeaderView { lines: self.lines.push(line), ..self }
        }
    }
}

impl HeaderBlock {
    #[verifier::type_invariant]
    spec fn counted(self) -> bool {
        self.total == bytes_of(views(self.lines@)) && self.total <= MAX_HEAD
    }

    /// A block without lines.
    pub fn new() -> (r: Self)
        ensures
            r@ == (HeaderView { lines: Seq::empty(), closed: false }),
    {
        let r = HeaderBlock { lines: Vec::new(), total: 0, closed: false };
        assert(r@.lines =~= Seq::empty());
        r
    }

    /// Read one more line, which still has its line end.
    pub fn with_line(self, line: String) -> (r: Self)
        ensures
            r@ == self@.with_line(line@),
    {
        proof {
            use_type_invariant(&self);
        }
        let HeaderBlock { lines, total, closed } = self;
        if closed {
            return HeaderBlock { lines, total, closed };
        }
        let n: usize = byte_len(line.as_str());
        if str_equal(line.as_str(), "\r\n") || str_equal(line.as_str(), "\n") 
            || line.as_str().is_empty()
            || n > MAX_HEAD - total {
            return HeaderBlock { lines, total, closed: true };
        }
        let ghost before = views(lines@);
        let mut kept: Vec<String> = lines;
        kept.push(line);
        proof {
            assert(views(kept@) =~= before.push(line@));
            assert(before.push(line@).drop_last() =~= before);
        }
        HeaderBlock { lines: kept, total: total + n, closed: false }
    }

    /// Whether the block is complete.
    pub fn is_closed(&self) -> (r: bool)
        ensures
            r == self@.closed,
    {
        self.closed
    }

    /// The lines, each with its line end. Together they are within the bound.
    pub fn lines(&self) -> (r: &Vec<String>)
        ensures
            views(r@) == self@.lines,
            bytes_of(self@.lines) <= MAX_HEAD,
    {
        proof {
            use_type_invariant(self);
        }
        &self.lines
    }
}

/// The header line names the host.
pub open spec fn is_host_header(line: Seq<char>) -> bool {
    line.len() >= 5 && same_ignoring_case(line.subrange(0, 5), "host:"@)
}

/// The lines of the client that reach the origin.
pub open spec fn reaching(lines: Seq<Seq<char>>) -> Seq<Seq<char>>
    decreases lines.len(),
{
    if lines.len() == 0 {
        Seq::empty()
    } else if is_host_header(lines.last()) {
        reaching(lines.drop_last())
    } else {
        reaching(lines.drop_last()).push(lines.last())
    }
}

/// The lines, one behind the other.
pub open spec fn joined_lines(lines: Seq<Seq<char>>) -> Seq<char>
    decreases lines.len(),
{
    if lines.len() == 0 {
        Seq::empty()
    } else {
        joined_lines(lines.drop_last()) + lines.last()
    }
}

/// The host header that the proxy itself writes: the host that was checked,
/// with its port where that is not the default.
pub open spec fn host_header(host: Seq<char>, port: u16) -> Seq<char> {
    if port == 80 {
        "Host: "@ + host + "\r\n"@
    } else {
        "Host: "@ + host + ":"@ + decimal(port as nat) + "\r\n"@
    }
}

/// The head of a forwarded request: the line in origin form, the host header
/// of the proxy, and the client's other headers in their order.
pub open spec fn forwarded_head(
    origin_line: Seq<char>,
    host: Seq<char>,
    port: u16,
    lines: Seq<Seq<char>>,
) -> Seq<char> {
    origin_line + host_header(host, port) + joined_lines(reaching(lines)) + "\r\n"@
}

fn names_host(line: &str) -> (r: bool)
    ensures
        r == is_host_header(line@),
{
    let chars: Vec<char> = chars_of(line);
    chars.len() >= 5 && equal_ignoring_case(&chars, 0, 5, "host:")
}

fn write_head(origin_line: &str, host: &str, port: u16, lines: &Vec<String>) -> (r: String)
    ensures
        r@ == forwarded_head(origin_line@, host@, port, views(lines@)),
{
    let header: String = if port == 80 {
        "Host: ".to_owned().concat(host).concat("\r\n")
    } else {
        "Host: ".to_owned().concat(host).concat(":").concat(decimal_of(port as u64).as_str()).concat(
            "\r\n",
        )
    };
    let mut r: String = origin_line.to_owned().concat(header.as_str());
    let ghost start = r@;
    let ghost all = views(lines@);
    let mut i: usize = 0;
    assert(all.len() == lines@.len());
    assert(start + joined_lines(reaching(all.take(0))) =~= start);
    while i < lines.len()
        invariant
            i <= lines.len(),
            all == views(lines@),
            all.len() == lines@.len(),
            r@ == start + joined_lines(reaching(all.take(i as int))),
        decreases lines.len() - i,
    {
        proof {
            let longer = all.take(i + 1);
            assert(longer.drop_last() =~= all.take(i as int));
            assert(longer.last() == lines@[i as int]@);
        }
        if !names_host(lines[i].as_str()) {
            let ghost before = r@;
            r.append(lines[i].as_str());
            proof {
                let kept = reaching(all.take(i as int));
                assert(kept.push(lines@[i as int]@).drop_last() =~= kept);
                assert(start + (joined_lines(kept) + lines@[i as int]@) =~= before
                    + lines@[i as int]@);
            }
        }
        i = i + 1;
    }
    assert(all.take(i as int) =~= all);
    r.concat("\r\n")
}

/// A request that the proxy has understood.
#[derive(Debug, PartialEq, Eq)]
pub struct Requested {
    host: String,
    port: u16,
    origin_line: Option<String>,
}

impl View for Requested {
    type V = TargetView;

    closed spec fn view(&self) -> TargetView {
        match self.origin_line {
            None => TargetView::Connect { host: self.host@, port: self.port },
            Some(line) => TargetView::Http {
                host: self.host@,
                port: self.port,
                origin_line: line@,
            },
        }
    }
}

/// What a connection is answered on its first line.
#[derive(Debug, PartialEq, Eq)]
pub enum Opening {
    /// The request is malformed: answer, and record nothing, for there is no
    /// host to name.
    Malformed {
        /// The answer.
        response: String,
    },
    /// The host is not granted: record the denial and answer.
    Denied {
        /// What was asked for.
        requested: Requested,
        /// The answer.
        response: String,
    },
    /// The host is granted: read the headers and dial it.
    Dial {
        /// What was asked for.
        requested: Requested,
    },
}

/// How a connection ended, once its host was known.
#[derive(Debug, Clone, Copy, PartialEq, Eq)]
pub enum SessionEnd {
    /// The host was not granted.
    Denied,
    /// The origin could not be reached.
    Unreachable,
    /// The bytes were passed on.
    Finished {
        /// Bytes from the client to the origin.
        bytes_up: u64,
        /// Bytes from the origin to the client.
        bytes_down: u64,
    },
}

/// What is written before the bytes are passed on in both directions.
#[derive(Debug, PartialEq, Eq)]
pub struct Preamble {
    /// To the client.
    pub to_client: String,
    /// To the origin.
    pub to_origin: String,
}

/// The kind of a request.
pub open spec fn kind_of(target: TargetView) -> NetKind {
    match target {
        TargetView::Connect { .. } => NetKind::Connect,
        TargetView::Http { .. } => NetKind::Http,
    }
}

/// Decide a connection by its first line. A refused host is entered in the
/// books.
pub fn open_session(line: &str, policy: &HostPolicy, ledger: &mut ProxyLedger) -> (r: Opening)
    requires
        old(ledger)@.consistent(),
        old(ledger)@.has_room(),
    ensures
        final(ledger)@.consistent(),
        match parsed(line@) {
            None => (r matches Opening::Malformed { response: text } && text@ == response(
                400,
                "Bad Request"@,
            )) && final(ledger)@ == old(ledger)@,
            Some(target) => if policy@.contains(target.host()) {
                (r matches Opening::Dial { requested } && requested@ == target) && final(ledger)@
                    == old(ledger)@
            } else {
                (r matches Opening::Denied { requested, response: text } && requested@ == target
                    && text@ == response(403, "Forbidden"@)) && final(ledger)@ == (LedgerView {
                    evidence: old(ledger)@.evidence.after_refusal(target.host()),
                    ..old(ledger)@
                })
            },
        },
{
    let requested: Requested = match parse_request_line(line) {
        None => {
            return Opening::Malformed { response: response_text(400, "Bad Request") };
        },
        Some(Target::Connect { host, port }) => Requested { host, port, origin_line: None },
        Some(Target::Http { host, port, origin_line }) => Requested {
            host,
            port,
            origin_line: Some(origin_line),
        },
    };
    if policy.allows(requested.host.as_str()) {
        Opening::Dial { requested }
    } else {
        ledger.refuse_host(requested.host.as_str());
        Opening::Denied { requested, response: response_text(403, "Forbidden") }
    }
}

impl Requested {
    /// The host that was asked for.
    pub fn host(&self) -> (r: &str)
        ensures
            r@ == self@.host(),
    {
        self.host.as_str()
    }

    /// The port that was asked for.
    pub fn port(&self) -> (r: u16)
        ensures
            r == self@.port(),
    {
        self.port
    }

    /// Tunnel or forward.
    pub fn kind(&self) -> (r: NetKind)
        ensures
            r == kind_of(self@),
    {
        match self.origin_line {
            None => NetKind::Connect,
            Some(_) => NetKind::Http,
        }
    }

    /// The answer where the origin could not be reached.
    pub fn unreachable(&self) -> (r: String)
        ensures
            r@ == response(502, "Bad Gateway"@),
    {
        response_text(502, "Bad Gateway")
    }

    /// What is written once the origin is reached, given the client's header
    /// lines. A tunnel begins with a bare status line and no body; a forwarded
    /// request with its rewritten head.
    pub fn preamble(&self, lines: &Vec<String>) -> (r: Preamble)
        ensures
            match self@ {
                TargetView::Connect { .. } => r.to_client@
                    == "HTTP/1.1 200 Connection Established\r\n\r\n"@ && r.to_origin@
                    == Seq::<char>::empty(),
                TargetView::Http { host, port, origin_line } => r.to_client@ == Seq::<char>::empty()
                    && r.to_origin@ == forwarded_head(origin_line, host, port, views(lines@)),
            },
    {
        match &self.origin_line {
            None => Preamble {
                to_client: "HTTP/1.1 200 Connection Established\r\n\r\n".to_owned(),
                to_origin: String::new(),
            },
            Some(line) => Preamble {
                to_client: String::new(),
                to_origin: write_head(line.as_str(), self.host.as_str(), self.port, lines),
            },
        }
    }

    /// The record of the connection. Bytes are counted only where they were
    /// passed on.
    pub fn audit(&self, end: SessionEnd, ts_ms: u64, dur_ms: u64) -> (r: NetAuditEvent)
        ensures
            r.ts_ms == ts_ms,
            r.dur_ms == dur_ms,
            r.host@ == self@.host(),
            r.port == self@.port(),
            r.kind == kind_of(self@),
            match end {
                SessionEnd::Denied => r.decision == NetDecision::Denied && r.bytes_up == 0
                    && r.bytes_down == 0,
                SessionEnd::Unreachable => r.decision == NetDecision::Error && r.bytes_up == 0
                    && r.bytes_down == 0,
                SessionEnd::Finished { bytes_up, bytes_down } => r.decision == NetDecision::Allowed
                    && r.bytes_up == bytes_up && r.bytes_down == bytes_down,
            },
    {
        let (decision, bytes_up, bytes_down): (NetDecision, u64, u64) = match end {
            SessionEnd::Denied => (NetDecision::Denied, 0, 0),
            SessionEnd::Unreachable => (NetDecision::Error, 0, 0),
            SessionEnd::Finished { bytes_up, bytes_down } => (
                NetDecision::Allowed,
                bytes_up,
                bytes_down,
            ),
        };
        NetAuditEvent {
            ts_ms,
            host: self.host.clone(),
            port: self.port,
            kind: self.kind(),
            decision,
            bytes_up,
            bytes_down,
            dur_ms,
        }
    }
}

/// What one attempt to pass bytes on came to.
#[derive(Debug, Clone, Copy, PartialEq, Eq)]
pub enum CopyEvent {
    /// The source has ended.
    End,
    /// The read was interrupted.
    Interrupted,
    /// The read failed.
    Failed,
    /// Bytes were read, and written or not.
    Read {
        /// How many.
        bytes: usize,
        /// Whether they were written.
        written: bool,
    },
}

/// The bytes passed on so far and whether to go on. What was passed on stays
/// counted, whatever ends the copy.
pub fn copy_step(total: u64, event: CopyEvent) -> (r: (u64, bool))
    requires
        event matches CopyEvent::Read { bytes, .. } ==> total + bytes <= u64::MAX,
    ensures
        r == (match event {
            CopyEvent::End => (total, false),
            CopyEvent::Interrupted => (total, true),
            CopyEvent::Failed => (total, false),
            CopyEvent::Read { bytes, written } => if written && bytes > 0 {
                ((total + bytes) as u64, true)
            } else {
                (total, false)
            },
        }),
{
    match event {
        CopyEvent::End => (total, false),
        CopyEvent::Interrupted => (total, true),
        CopyEvent::Failed => (total, false),
        CopyEvent::Read { bytes, written } => {
            if written && bytes > 0 {
                (total + bytes as u64, true)
            } else {
                (total, false)
            }
        },
    }
}

/// The variables that route a child through the proxy, in both spellings.
pub open spec fn proxy_variables() -> Seq<Seq<char>> {
    seq![
        "http_proxy"@,
        "https_proxy"@,
        "all_proxy"@,
        "HTTP_PROXY"@,
        "HTTPS_PROXY"@,
        "ALL_PROXY"@,
    ]
}

/// The environment that routes a child through the proxy at `addr`.
pub fn proxy_env(addr: &str) -> (r: Vec<(String, String)>)
    ensures
        r@.len() == proxy_variables().len(),
        forall|i: int|
            0 <= i < r@.len() ==> (#[trigger] r@[i]).0@ == proxy_variables()[i] && r@[i].1@
                == "http://"@ + addr@,
{
    let url: String = "http://".to_owned().concat(addr);
    let mut r: Vec<(String, String)> = Vec::new();
    r.push(("http_proxy".to_owned(), url.clone()));
    r.push(("https_proxy".to_owned(), url.clone()));
    r.push(("all_proxy".to_owned(), url.clone()));
    r.push(("HTTP_PROXY".to_owned(), url.clone()));
    r.push(("HTTPS_PROXY".to_owned(), url.clone()));
    r.push(("ALL_PROXY".to_owned(), url));
    r
}

/// No host header of the client reaches the origin: behind the proxy's own
/// host header stand exactly the client's other lines, in their order.
pub proof fn law_the_origin_sees_only_the_checked_host(
    origin_line: Seq<char>,
    host: Seq<char>,
    port: u16,
    lines: Seq<Seq<char>>,
)
    ensures
        forwarded_head(origin_line, host, port, lines) == origin_line + host_header(host, port)
            + joined_lines(reaching(lines)) + "\r\n"@,
        reaching(lines) == lines.filter(|line: Seq<char>| !is_host_header(line)),
        forall|i: int|
            0 <= i < reaching(lines).len() ==> !is_host_header(#[trigger] reaching(lines)[i]),
        forall|i: int|
            0 <= i < lines.len() && !is_host_header(#[trigger] lines[i]) ==> reaching(
                lines,
            ).contains(lines[i]),
{
    lemma_reaching(lines);
}

proof fn lemma_reaching(lines: Seq<Seq<char>>)
    ensures
        reaching(lines) == lines.filter(|line: Seq<char>| !is_host_header(line)),
        forall|i: int|
            0 <= i < reaching(lines).len() ==> !is_host_header(#[trigger] reaching(lines)[i]),
        forall|i: int|
            0 <= i < lines.len() && !is_host_header(#[trigger] lines[i]) ==> reaching(
                lines,
            ).contains(lines[i]),
    decreases lines.len(),
{
    reveal(Seq::filter);
    if lines.len() > 0 {
        let before = lines.drop_last();
        lemma_reaching(before);
        let kept = reaching(before);
        if !is_host_header(lines.last()) {
            assert(reaching(lines).last() == lines.last());
        }
        assert forall|i: int|
            0 <= i < lines.len() && !is_host_header(#[trigger] lines[i]) implies reaching(
            lines,
        ).contains(lines[i]) by {
            if i < before.len() {
                assert(before[i] == lines[i]);
                assert(kept.contains(before[i]));
                let k = choose|k: int| 0 <= k < kept.len() && kept[k] == before[i];
                assert(reaching(lines)[k] == lines[i]);
            } else {
                assert(reaching(lines)[reaching(lines).len() - 1] == lines[i]);
            }
        }
    }
}

} // verus!
