//! Requests, events and evidence of an execution.

use std::sync::Arc;

use vstd::prelude::*;
use vstd::string::*;
use vstd::utf8::encode_utf8;

use crate::admitted::named_root::{body_refusal, content_address, AdmittedFenceBody, BodyView};
use crate::admitted::AdmittedFenceId;
use crate::caveats::Caveats;
use crate::context::ResolvedRoot;
use crate::envelope::Denial;
use crate::error::{ToolError, ToolResult};
use crate::execution::limits::{ExecutionLimits, MAX_OUTPUT_CHUNK_BYTES_CEILING};
use crate::net_proxy::evidence::ProxyFinalEvidence;
use crate::sandbox::SandboxKind;
use crate::sets::OrderedSet;
use crate::text::{byte_len, decimal, decimal_of, str_equal};

verus! {

/// The most stdin bytes of a request.
pub const MAX_STDIN_BYTES_CEILING: usize = 16777216;

/// The most arguments of a request.
pub const MAX_ARGV_ENTRIES: usize = 4096;

/// The most bytes of an argument, a program name or an environment value.
pub const MAX_ARG_BYTES: usize = 131072;

/// The most environment entries of a request.
pub const MAX_ENV_ENTRIES: usize = 4096;

/// The number of an execution, unique within the process that gives it out.
#[derive(Debug, Clone, Copy, PartialEq, Eq, PartialOrd, Ord, Hash, Structural)]
pub struct ExecutionId(pub u64);

impl ExecutionId {
    /// The next number of a counter.
    pub fn next(counter: &mut u64) -> (r: Self)
        ensures
            r.0 == *old(counter),
            *final(counter) == (if *old(counter) < u64::MAX {
                *old(counter) + 1
            } else {
                0
            }),
    {
        let id: u64 = *counter;
        *counter = if id < u64::MAX {
            id + 1
        } else {
            0
        };
        ExecutionId(id)
    }

    /// The number in words.
    pub fn message(&self) -> (r: String)
        ensures
            r@ == "exec-"@ + decimal(self.0 as nat),
    {
        "exec-".to_owned().concat(decimal_of(self.0).as_str())
    }
}

/// What a child reads as its standard input. There is no inheriting: the
/// parent's input is not the child's to read.
#[derive(Debug, Clone, PartialEq, Eq)]
pub enum ExecutionStdin {
    /// Nothing.
    Null,
    /// Exactly these bytes.
    Bytes(Vec<u8>),
}

impl Default for ExecutionStdin {
    fn default() -> (r: Self)
        ensures
            r is Null,
    {
        ExecutionStdin::Null
    }
}

/// What to run: a program, its arguments, where, with which environment and
/// input, and within which bounds.
#[derive(Debug, Clone, PartialEq, Eq)]
pub struct ExecutionRequest {
    /// The program.
    pub executable: String,
    /// Its arguments.
    pub argv: Vec<String>,
    /// Its working directory, or that of the caller.
    pub cwd: Option<String>,
    /// Its whole environment.
    pub env: Vec<(String, String)>,
    /// Its input.
    pub stdin: ExecutionStdin,
    /// The bounds.
    pub limits: ExecutionLimits,
}

/// A text longer than an argument may be.
pub open spec fn too_long(text: Seq<char>) -> bool {
    encode_utf8(text).len() > MAX_ARG_BYTES
}

impl ExecutionRequest {
    /// Why the request is refused, if it is.
    pub open spec fn refusal(self) -> Option<Seq<char>> {
        if self.executable@.len() == 0 {
            Some("execution request names no executable"@)
        } else if too_long(self.executable@) {
            Some("execution executable exceeds the argument bound"@)
        } else if self.argv@.len() > MAX_ARGV_ENTRIES {
            Some("execution argv exceeds the argument-count bound"@)
        } else if exists|i: int| 0 <= i < self.argv@.len() && too_long(#[trigger] self.argv@[i]@) {
            Some("an execution argument exceeds the argument bound"@)
        } else if self.env@.len() > MAX_ENV_ENTRIES {
            Some("execution env exceeds the entry-count bound"@)
        } else if exists|i: int|
            0 <= i < self.env@.len() && (too_long((#[trigger] self.env@[i]).0@) || too_long(
                self.env@[i].1@,
            )) {
            Some("an execution env entry exceeds the argument bound"@)
        } else if self.stdin matches ExecutionStdin::Bytes(bytes) && bytes@.len()
            > MAX_STDIN_BYTES_CEILING {
            Some("execution stdin exceeds the stdin bound"@)
        } else {
            None
        }
    }

    /// A request for a program, with the default bounds and nothing else.
    pub fn new(executable: String) -> (r: Self)
        ensures
            r.executable == executable,
            r.argv@.len() == 0,
            r.cwd is None,
            r.env@.len() == 0,
            r.stdin is Null,
            call_ensures(ExecutionLimits::default, (), r.limits),
    {
        ExecutionRequest {
            executable,
            argv: Vec::new(),
            cwd: None,
            env: Vec::new(),
            stdin: ExecutionStdin::Null,
            limits: ExecutionLimits::default(),
        }
    }

    /// The request with one more argument.
    pub fn arg(self, arg: String) -> (r: Self)
        ensures
            r.argv@ == self.argv@.push(arg),
            r.executable == self.executable && r.cwd == self.cwd && r.env == self.env && r.stdin
                == self.stdin && r.limits == self.limits,
    {
        let mut r = self;
        r.argv.push(arg);
        r
    }

    /// The request with more arguments.
    pub fn args(self, args: Vec<String>) -> (r: Self)
        ensures
            r.argv@ == self.argv@ + args@,
            r.executable == self.executable && r.cwd == self.cwd && r.env == self.env && r.stdin
                == self.stdin && r.limits == self.limits,
    {
        let mut r = self;
        let ghost before = self.argv@;
        let mut i: usize = 0;
        assert(before + args@.take(0) =~= before);
        while i < args.len()
            invariant
                i <= args.len(),
                r.argv@ == before + args@.take(i as int),
                r.executable == self.executable && r.cwd == self.cwd && r.env == self.env && r.stdin
                    == self.stdin && r.limits == self.limits,
            decreases args.len() - i,
        {
            r.argv.push(args[i].clone());
            assert(before + args@.take(i + 1) =~= (before + args@.take(i as int)).push(
                args@[i as int],
            ));
            i = i + 1;
        }
        assert(args@.take(i as int) =~= args@);
        r
    }

    /// The request in a working directory.
    pub fn cwd(self, dir: String) -> (r: Self)
        ensures
            r == (ExecutionRequest { cwd: Some(dir), ..self }),
    {
        ExecutionRequest { cwd: Some(dir), ..self }
    }

    /// The request with one more environment entry.
    pub fn env(self, key: String, value: String) -> (r: Self)
        ensures
            r.env@ == self.env@.push((key, value)),
            r.executable == self.executable && r.argv == self.argv && r.cwd == self.cwd && r.stdin
                == self.stdin && r.limits == self.limits,
    {
        let mut r = self;
        r.env.push((key, value));
        r
    }

    /// The request with this input.
    pub fn stdin(self, stdin: ExecutionStdin) -> (r: Self)
        ensures
            r == (ExecutionRequest { stdin, ..self }),
    {
        ExecutionRequest { stdin, ..self }
    }

    /// The request with these bounds.
    pub fn limits(self, limits: ExecutionLimits) -> (r: Self)
        ensures
            r == (ExecutionRequest { limits, ..self }),
    {
        ExecutionRequest { limits, ..self }
    }

    /// Refuse a request that is empty or larger than a ceiling.
    pub fn validate(&self) -> (r: ToolResult<()>)
        ensures
            match self.refusal() {
                None => r is Ok,
                Some(reason) => r is Err && r->Err_0.is_denial(reason),
            },
    {
        if self.executable.as_str().is_empty() {
            return Err(ToolError::denied("execution request names no executable".to_owned()));
        }
        if byte_len(self.executable.as_str()) > MAX_ARG_BYTES {
            return Err(
                ToolError::denied("execution executable exceeds the argument bound".to_owned()),
            );
        }
        if self.argv.len() > MAX_ARGV_ENTRIES {
            return Err(
                ToolError::denied("execution argv exceeds the argument-count bound".to_owned()),
            );
        }
        if any_argument_too_long(&self.argv) {
            return Err(
                ToolError::denied("an execution argument exceeds the argument bound".to_owned()),
            );
        }
        if self.env.len() > MAX_ENV_ENTRIES {
            return Err(
                ToolError::denied("execution env exceeds the entry-count bound".to_owned()),
            );
        }
        if any_entry_too_long(&self.env) {
            return Err(
                ToolError::denied("an execution env entry exceeds the argument bound".to_owned()),
            );
        }
        if let ExecutionStdin::Bytes(bytes) = &self.stdin {
            if bytes.len() > MAX_STDIN_BYTES_CEILING {
                return Err(
                    ToolError::denied("execution stdin exceeds the stdin bound".to_owned()),
                );
            }
        }
        Ok(())
    }
}

fn any_argument_too_long(argv: &Vec<String>) -> (r: bool)
    ensures
        r == exists|i: int| 0 <= i < argv@.len() && too_long(#[trigger] argv@[i]@),
{
    let mut i: usize = 0;
    while i < argv.len()
        invariant
            i <= argv.len(),
            forall|k: int| 0 <= k < i ==> !too_long(#[trigger] argv@[k]@),
        decreases argv.len() - i,
    {
        if byte_len(argv[i].as_str()) > MAX_ARG_BYTES {
            assert(too_long(argv@[i as int]@));
            return true;
        }
        i = i + 1;
    }
    false
}

fn any_entry_too_long(env: &Vec<(String, String)>) -> (r: bool)
    ensures
        r == exists|i: int|
            0 <= i < env@.len() && (too_long((#[trigger] env@[i]).0@) || too_long(env@[i].1@)),
{
    let mut i: usize = 0;
    while i < env.len()
        invariant
            i <= env.len(),
            forall|k: int|
                0 <= k < i ==> !(too_long((#[trigger] env@[k]).0@) || too_long(env@[k].1@)),
        decreases env.len() - i,
    {
        if byte_len(env[i].0.as_str()) > MAX_ARG_BYTES || byte_len(env[i].1.as_str())
            > MAX_ARG_BYTES {
            assert(too_long(env@[i as int].0@) || too_long(env@[i as int].1@));
            return true;
        }
        i = i + 1;
    }
    false
}

/// What a bounded stream could not deliver.
#[derive(Debug, Clone, Copy, PartialEq, Eq, Structural)]
pub struct DroppedEvidence {
    /// Bytes of standard output.
    pub stdout_bytes: u64,
    /// Bytes of standard error.
    pub stderr_bytes: u64,
    /// Events.
    pub events: u64,
}

impl Default for DroppedEvidence {
    fn default() -> (r: Self)
        ensures
            r == (DroppedEvidence { stdout_bytes: 0, stderr_bytes: 0, events: 0 }),
    {
        DroppedEvidence { stdout_bytes: 0, stderr_bytes: 0, events: 0 }
    }
}

impl DroppedEvidence {
    /// Whether everything was delivered.
    pub fn is_empty(&self) -> (r: bool)
        ensures
            r == (self.stdout_bytes == 0 && self.stderr_bytes == 0 && self.events == 0),
    {
        self.stdout_bytes == 0 && self.stderr_bytes == 0 && self.events == 0
    }
}

/// What is known of the fence of a started execution.
#[derive(Debug, PartialEq, Eq)]
pub struct FenceEvidence {
    /// The identity of the fence.
    pub fence_id: AdmittedFenceId,
    /// The confinement in force.
    pub sandbox_kind: SandboxKind,
    /// Whether egress goes through the proxy.
    pub egress_proxied: bool,
    /// What was admitted, where the fence is that of a named root.
    pub named_root: Option<AdmittedFenceBody>,
}

/// The model of [`FenceEvidence`].
pub ghost struct FenceView {
    pub cid: Seq<char>,
    pub sandbox_kind: SandboxKind,
    pub egress_proxied: bool,
    pub named_root: Option<BodyView>,
}

impl View for FenceEvidence {
    type V = FenceView;

    open spec fn view(&self) -> FenceView {
        FenceView {
            cid: self.fence_id.cid@,
            sandbox_kind: self.sandbox_kind,
            egress_proxied: self.egress_proxied,
            named_root: match self.named_root {
                Some(body) => Some(body@),
                None => None,
            },
        }
    }
}

impl FenceEvidence {
    /// Whether both say the same.
    pub fn same(&self, other: &Self) -> (r: bool)
        ensures
            r == (self@ == other@),
    {
        let bodies: bool = match (&self.named_root, &other.named_root) {
            (Some(a), Some(b)) => a.same(b),
            (None, None) => true,
            _ => false,
        };
        bodies && str_equal(self.fence_id.cid.as_str(), other.fence_id.cid.as_str())
            && self.sandbox_kind == other.sandbox_kind && self.egress_proxied
            == other.egress_proxied
    }

    /// Verify that this is the evidence of a named root for an invocation: it
    /// carries what was admitted, that is evidence for the invocation, and it
    /// has the identity that its encoding gives.
    pub fn verify_named_root<F: FnOnce(&AdmittedFenceBody) -> Result<Vec<u8>, String>>(
        &self,
        expected_root: &str,
        effective: &Caveats,
        protected_roots: &OrderedSet<String>,
        known: &Vec<ResolvedRoot>,
        encode: F,
    ) -> (r: ToolResult<&AdmittedFenceBody>)
        requires
            forall|body: &AdmittedFenceBody| #[trigger] encode.requires((body,)),
        ensures
            match self.named_root {
                None => r is Err && r->Err_0.is_denial(no_body_refusal()),
                Some(body) => match body_refusal(
                    body@,
                    expected_root@,
                    effective@,
                    protected_roots@,
                    known@,
                ) {
                    Some(reason) => r is Err && r->Err_0.is_denial(reason),
                    None => exists|canonical: Result<Vec<u8>, String>| #[trigger]
                        encode.ensures((&body,), canonical) && (match canonical {
                            Err(cause) => r is Err && r->Err_0.is_denial(
                                "cannot content-address the named-root fence: "@ + cause@,
                            ),
                            Ok(bytes) => if content_address(bytes@) == self.fence_id.cid@ {
                                r matches Ok(b) && *b == body
                            } else {
                                r is Err && r->Err_0.is_denial(identity_refusal())
                            },
                        }),
                },
            },
    {
        let body: &AdmittedFenceBody = match &self.named_root {
            None => {
                return Err(
                    ToolError::denied("fence evidence carries no admitted named root".to_owned()),
                );
            },
            Some(body) => body,
        };
        if let Err(e) = body.verify(expected_root, effective, protected_roots, known) {
            return Err(e);
        }
        match body.fence_id(encode) {
            Err(e) => Err(e),
            Ok(id) => {
                if str_equal(id.cid.as_str(), self.fence_id.cid.as_str()) {
                    Ok(body)
                } else {
                    Err(
                        ToolError::denied(
                            "fence evidence does not have the identity of its named root".to_owned(),
                        ),
                    )
                }
            },
        }
    }
}

/// The refusal of evidence that carries nothing admitted.
pub open spec fn no_body_refusal() -> Seq<char> {
    "fence evidence carries no admitted named root"@
}

/// The refusal of evidence whose identity is not that of what it carries.
pub open spec fn identity_refusal() -> Seq<char> {
    "fence evidence does not have the identity of its named root"@
}

/// How a process tree ended.
#[derive(Debug, Clone, Copy, PartialEq, Eq, Structural)]
pub enum ExitDisposition {
    /// On its own.
    Natural,
    /// By a graceful cancellation.
    Cancelled,
    /// By force.
    Killed,
    /// The child ended on its own, and descendants that held an output open
    /// were ended by force.
    DescendantsReaped,
}

/// The final evidence of an execution that ran.
#[derive(Debug, PartialEq, Eq)]
pub struct ExitEvidence {
    /// The exit code, if there is one.
    pub code: Option<i32>,
    /// The signal that ended the child, if one did.
    pub signal: Option<i32>,
    /// How the tree ended.
    pub disposition: ExitDisposition,
    /// The fence it ran under.
    pub fence: Arc<FenceEvidence>,
    /// What the stream could not deliver.
    pub dropped: DroppedEvidence,
    /// The final account of the egress proxy, where there was one.
    pub proxy: Option<ProxyFinalEvidence>,
}

/// How an execution ended. There is exactly one such record.
#[derive(Debug, PartialEq, Eq)]
pub enum ExecutionTerminal {
    /// The process tree ran and is gone.
    Exited(Arc<ExitEvidence>),
    /// The execution was refused; there never was a process.
    Denied {
        /// The refusal.
        denial: Denial,
    },
    /// The mechanism failed.
    Failed {
        /// What happened.
        message: String,
    },
}

impl ExecutionTerminal {
    /// The evidence of an execution that ran.
    pub fn exit_evidence(&self) -> (r: Option<&ExitEvidence>)
        ensures
            match self {
                ExecutionTerminal::Exited(evidence) => r matches Some(e) && *e == **evidence,
                _ => r is None,
            },
    {
        match self {
            ExecutionTerminal::Exited(evidence) => Some(evidence),
            _ => None,
        }
    }

    /// Whether the execution ran.
    pub fn is_exited(&self) -> (r: bool)
        ensures
            r == (self is Exited),
    {
        match self {
            ExecutionTerminal::Exited(_) => true,
            _ => false,
        }
    }
}

impl Clone for ExecutionTerminal {
    fn clone(&self) -> (r: Self)
        ensures
            r == *self,
    {
        match self {
            ExecutionTerminal::Exited(evidence) => ExecutionTerminal::Exited(evidence.clone()),
            ExecutionTerminal::Denied { denial } => ExecutionTerminal::Denied {
                denial: denial.clone(),
            },
            ExecutionTerminal::Failed { message } => ExecutionTerminal::Failed {
                message: message.clone(),
            },
        }
    }
}

/// One event of a stream.
#[derive(Debug, PartialEq, Eq)]
pub struct ExecutionEvent {
    /// Which execution it belongs to.
    pub execution: ExecutionId,
    /// Its number. The numbers of the delivered events leave no gap.
    pub sequence: u64,
    /// What happened.
    pub kind: ExecutionEventKind,
}

/// What happened in an execution.
#[derive(Debug, PartialEq, Eq)]
pub enum ExecutionEventKind {
    /// A request was accepted; no process exists yet.
    Accepted,
    /// A process tree runs under a fence.
    Started {
        /// The process id of the child.
        pid: u32,
        /// The fence.
        fence: Arc<FenceEvidence>,
    },
    /// A chunk of standard output.
    Stdout(Vec<u8>),
    /// A chunk of standard error.
    Stderr(Vec<u8>),
    /// Output was omitted: the totals so far.
    OutputTruncated(DroppedEvidence),
    /// A refusal during the execution.
    Denial(Denial),
    /// The end: the tree ran and is gone.
    Exited(Arc<ExitEvidence>),
    /// The end: refused before a process existed.
    Denied {
        /// The refusal.
        denial: Denial,
    },
    /// The end: the mechanism failed.
    Failed {
        /// What happened.
        message: String,
    },
}

impl ExecutionEventKind {
    /// The kind ends a stream.
    pub open spec fn ends(self) -> bool {
        self is Exited || self is Denied || self is Failed
    }

    /// The number of output bytes.
    pub open spec fn output_bytes(self) -> int {
        match self {
            ExecutionEventKind::Stdout(bytes) => bytes@.len() as int,
            ExecutionEventKind::Stderr(bytes) => bytes@.len() as int,
            _ => 0,
        }
    }

    /// The number of output bytes.
    pub fn output_len(&self) -> (r: usize)
        ensures
            r == self.output_bytes(),
    {
        match self {
            ExecutionEventKind::Stdout(bytes) => bytes.len(),
            ExecutionEventKind::Stderr(bytes) => bytes.len(),
            _ => 0,
        }
    }
}

/// The kind of the last event for a terminal record.
pub open spec fn terminal_kind(terminal: ExecutionTerminal) -> ExecutionEventKind {
    match terminal {
        ExecutionTerminal::Exited(evidence) => ExecutionEventKind::Exited(evidence),
        ExecutionTerminal::Denied { denial } => ExecutionEventKind::Denied { denial },
        ExecutionTerminal::Failed { message } => ExecutionEventKind::Failed { message },
    }
}

impl ExecutionEvent {
    /// Whether the event ends its stream.
    pub fn is_terminal(&self) -> (r: bool)
        ensures
            r == self.kind.ends(),
    {
        match self.kind {
            ExecutionEventKind::Exited(_) => true,
            ExecutionEventKind::Denied { .. } => true,
            ExecutionEventKind::Failed { .. } => true,
            _ => false,
        }
    }
}

/// Why a list that is read in takes no further entry, if it does not.
pub open spec fn entry_refusal(what: Seq<char>, kept: int, max: int, long: bool) -> Option<
    Seq<char>,
> {
    if kept >= max {
        Some(what + " exceeds the "@ + decimal(max as nat) + "-entry bound"@)
    } else if long {
        Some(what + " entry exceeds the "@ + decimal(MAX_ARG_BYTES as nat) + "-byte bound"@)
    } else {
        None
    }
}

fn refuse_entry(what: &str, max: usize, full: bool) -> (r: String)
    ensures
        r@ == (if full {
            what@ + " exceeds the "@ + decimal(max as nat) + "-entry bound"@
        } else {
            what@ + " entry exceeds the "@ + decimal(MAX_ARG_BYTES as nat) + "-byte bound"@
        }),
{
    if full {
        what.to_owned().concat(" exceeds the ").concat(decimal_of(max as u64).as_str()).concat(
            "-entry bound",
        )
    } else {
        what.to_owned().concat(" entry exceeds the ").concat(
            decimal_of(MAX_ARG_BYTES as u64).as_str(),
        ).concat("-byte bound")
    }
}

/// Add one argument to a list that is being read in, unless a bound is
/// reached.
pub fn push_bounded_argument(argv: &mut Vec<String>, item: String) -> (r: Result<(), String>)
    ensures
        match entry_refusal(
            "argv"@,
            old(argv)@.len() as int,
            MAX_ARGV_ENTRIES as int,
            too_long(item@),
        ) {
            None => r is Ok && final(argv)@ == old(argv)@.push(item),
            Some(reason) => r is Err && r->Err_0@ == reason && final(argv)@ == old(argv)@,
        },
{
    if argv.len() >= MAX_ARGV_ENTRIES {
        return Err(refuse_entry("argv", MAX_ARGV_ENTRIES, true));
    }
    if byte_len(item.as_str()) > MAX_ARG_BYTES {
        return Err(refuse_entry("argv", MAX_ARGV_ENTRIES, false));
    }
    argv.push(item);
    Ok(())
}

/// Add one environment entry to a list that is being read in, unless a bound
/// is reached.
pub fn push_bounded_variable(env: &mut Vec<(String, String)>, key: String, value: String) -> (r:
    Result<(), String>)
    ensures
        match entry_refusal(
            "env"@,
            old(env)@.len() as int,
            MAX_ENV_ENTRIES as int,
            too_long(key@) || too_long(value@),
        ) {
            None => r is Ok && final(env)@ == old(env)@.push((key, value)),
            Some(reason) => r is Err && r->Err_0@ == reason && final(env)@ == old(env)@,
        },
{
    if env.len() >= MAX_ENV_ENTRIES {
        return Err(refuse_entry("env", MAX_ENV_ENTRIES, true));
    }
    if byte_len(key.as_str()) > MAX_ARG_BYTES || byte_len(value.as_str()) > MAX_ARG_BYTES {
        return Err(refuse_entry("env", MAX_ENV_ENTRIES, false));
    }
    env.push((key, value));
    Ok(())
}

/// What a byte string is read in for.
#[derive(Debug, Clone, Copy, PartialEq, Eq, Structural)]
pub enum ByteField {
    /// One chunk of output.
    OutputChunk,
    /// The input of a child.
    Stdin,
}

/// Refuse a byte string that is longer than its field may be.
pub fn check_bytes(field: ByteField, len: usize) -> (r: Result<(), String>)
    ensures
        match field {
            ByteField::OutputChunk => if len > MAX_OUTPUT_CHUNK_BYTES_CEILING {
                r is Err && r->Err_0@ == "output chunk exceeds the "@ + decimal(
                    MAX_OUTPUT_CHUNK_BYTES_CEILING as nat,
                ) + "-byte bound"@
            } else {
                r is Ok
            },
            ByteField::Stdin => if len > MAX_STDIN_BYTES_CEILING {
                r is Err && r->Err_0@ == "stdin exceeds the "@ + decimal(
                    MAX_STDIN_BYTES_CEILING as nat,
                ) + "-byte bound"@
            } else {
                r is Ok
            },
        },
{
    match field {
        ByteField::OutputChunk => {
            if len > MAX_OUTPUT_CHUNK_BYTES_CEILING {
                return Err(
                    "output chunk exceeds the ".to_owned().concat(
                        decimal_of(MAX_OUTPUT_CHUNK_BYTES_CEILING as u64).as_str(),
                    ).concat("-byte bound"),
                );
            }
        },
        ByteField::Stdin => {
            if len > MAX_STDIN_BYTES_CEILING {
                return Err(
                    "stdin exceeds the ".to_owned().concat(
                        decimal_of(MAX_STDIN_BYTES_CEILING as u64).as_str(),
                    ).concat("-byte bound"),
                );
            }
        },
    }
    Ok(())
}

/// Add one byte to a byte string that is being read in, unless it is as long as
/// any may be.
pub fn push_bounded_byte(bytes: &mut Vec<u8>, byte: u8) -> (r: Result<(), String>)
    ensures
        if old(bytes)@.len() >= MAX_STDIN_BYTES_CEILING {
            r is Err && r->Err_0@ == "byte payload exceeds the repository bound"@ && final(bytes)@
                == old(bytes)@
        } else {
            r is Ok && final(bytes)@ == old(bytes)@.push(byte)
        },
{
    if bytes.len() >= MAX_STDIN_BYTES_CEILING {
        return Err("byte payload exceeds the repository bound".to_owned());
    }
    bytes.push(byte);
    Ok(())
}

/// Refuse a message that is too long.
pub fn check_message(message: &str) -> (r: Result<(), String>)
    ensures
        if too_long(message@) {
            r is Err && r->Err_0@ == "message exceeds the "@ + decimal(MAX_ARG_BYTES as nat)
                + "-byte bound"@
        } else {
            r is Ok
        },
{
    if byte_len(message) > MAX_ARG_BYTES {
        return Err(
            "message exceeds the ".to_owned().concat(decimal_of(MAX_ARG_BYTES as u64).as_str()).concat(
                "-byte bound",
            ),
        );
    }
    Ok(())
}

} // verus!
