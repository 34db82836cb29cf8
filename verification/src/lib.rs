//! The capability leash: every tool call runs under the least authority that
//! its grant and its own declared need allow.
//!
//! A tool acts through a [`ToolContext`], and only a [`Gate`] makes one: with
//! the meet of what was granted and what the tool declares to need. Around that
//! stand the lattice of authority, the reports and floors of enforcement, the
//! admission of fences, the egress proxy, managed executions, and the durable
//! decisions of humans.

pub mod admitted;
pub mod bytes;
pub mod canonical;
pub mod caveats;
pub mod config;
pub mod context;
pub mod envelope;
pub mod error;
pub mod execution;
pub mod gate;
pub mod net_proxy;
pub mod operator;
pub mod paths;
pub mod policy;
pub mod provenance;
pub mod registry;
pub mod report;
pub mod rootfs;
pub mod sandbox;
pub mod sets;
pub mod step_up;
pub mod text;

pub use admitted::{
    AdmittedFence, AdmittedFenceId, BackendProjection, RuntimeClosure,
    closure_is_harness_disjoint, entry_reaches_harness_private, mechanism_caveats_for,
};
pub use admitted::named_root::{
    AdmittedFenceBody, NamedRootSeal, fence_id_of, validate_named_root,
};
pub use admitted::protected_roots::{
    PrefixState, canonical_path, canonicalize_protected_roots, check_closure_inventory,
    settle_location,
};
pub use bytes::{hex_encode, Fingerprint};
pub use canonical::{CanonicalWalk, WalkStep};
pub use caveats::{Caveats, CountBound, Scope};
pub use config::{
    BackendToggles, BridleConfig, BridleMode, GatePolicy, HostMatch, LimitsPolicy, NetDefault,
    NetPolicy, NetRule, NormalizationPolicy, PathList, RootfsPolicy, SandboxPolicy, VmPolicy,
    WebPolicy,
};
pub use context::{
    OpenPlan, PathLookup, ResolvedRoot, ToolContext, entries_to_resolve, open_failure,
    plan_open,
};
pub use envelope::{Denial, DenialKind, Disclosure, ToolEnvelope};
pub use error::{ToolError, ToolResult};
pub use execution::contract::{
    ByteField, DroppedEvidence, ExecutionEvent, ExecutionEventKind, ExecutionId,
    ExecutionRequest, ExecutionStdin, ExecutionTerminal, ExitDisposition, ExitEvidence,
    FenceEvidence, MAX_ARGV_ENTRIES, MAX_ARG_BYTES, MAX_ENV_ENTRIES, MAX_STDIN_BYTES_CEILING,
    check_bytes, check_message, push_bounded_argument, push_bounded_byte,
    push_bounded_variable,
};
pub use execution::control::{
    AbandonPlan, CancelPlan, DrainEvent, LocalControl, LocalExecution, LocalExecutionBackend,
    LocalTreeContainment, Platform, ReapEvent, ReapStep, Reaping, SignalOrder, TreeSignal,
    TreeState, compose_terminal, keep_draining, local_tree_containment, signal_target,
};
pub use execution::limits::{
    ExecutionLimits, Grace, MAX_GRACE_SECS, MAX_OUTPUT_CHUNK_BYTES_CEILING,
    MAX_QUEUED_EVENTS_CEILING, MAX_QUEUED_OUTPUT_BYTES_CEILING, RawExecutionLimits,
};
pub use execution::stream::{
    ExecutionControl, ExecutionEmit, ExecutionEventSink, ExecutionHandle, NextEvent,
    OutputStream, Phase, StreamState, execution_stream,
};
pub use gate::{Gate, MAX_FRESHNESS_WINDOW};
pub use net_proxy::evidence::{
    Evidence, MAX_REFUSED_HOSTS, MAX_REFUSED_HOST_BYTES, ProxyFinalEvidence,
    ProxyFinalizeError, push_bounded_host,
};
pub use net_proxy::ledger::{Admission, DEFAULT_WORKER_CAP, Lifecycle, ProxyLedger, WorkerExit};
pub use net_proxy::request::{
    DialAddress, IpAddress, Target, guard_target, is_internal_ip, parse_request_line,
    split_host_port,
};
pub use net_proxy::session::{
    AuditSink, CopyEvent, HeaderBlock, HostPolicy, MAX_HEAD, NetAuditEvent, NetDecision,
    NetKind, NullSink, Opening, Preamble, Requested, SessionEnd, copy_step, open_session,
    proxy_env, response_text,
};
pub use operator::{
    BINDING_DOMAIN, CHALLENGE_DOMAIN, DangerTier, DecisionVerdict, HumanPrincipal,
    OperatorDecision, PermissionChallenge, PrincipalBinding, RequestedCapability,
};
pub use policy::{
    ApproveVerifier, CapabilityClass, Ed25519ApproveVerifier, ExecEntry, FsEntry, NetEntry,
    PolicyEntry, PolicyFile, PolicySet, SIGNING_DOMAIN, Verdict, VerdictFiles,
};
pub use provenance::{
    AdmissionDecision, AdmissionReject, ResolvedAuthority, ResolvedScope, ScopeRelation,
    decide_admission, empty_closure, relate,
};
pub use registry::{
    BlockingTool, Grant, Invocation, NoStepUp, Registry, RegistryBuilder, StepUp, Tool,
};
pub use report::{
    AxisEnforcement, ConfinedAxis, ConfinementMechanism, EnforcementFloor, EnforcementReport,
    UnenforceableAxis, axis_shortfall, enforcement_report, fence_strength, unenforceable_axis,
    unenforceable_axis_in_report,
};
pub use rootfs::{
    CacheStep, FileStamp, RootfsCache, RootfsEntry, RootfsPlan, add_runtime_closure_fallback,
    build_rootfs_plan, materialized_at,
};
pub use rootfs::host::{
    DirEntry, HostFacts, Listing, LoaderTrace, PathFact, PathKind, TraceItem, add_items,
    look_up, look_up_listing, look_up_trace, program_candidates, resolve_program, search_dirs,
    trace_items,
};
pub use sandbox::{
    ChildNetworkPolicy, ExecBoundary, SandboxKind, exec_fully_denied,
    exec_grant_pulls_launcher_variant, net_egress_proxy_hosts, net_fully_denied,
    net_loopback_full_interface, net_loopback_only,
};
pub use sets::{OrderedSet, SetItem};
pub use step_up::{
    AttestRequirement, Attestation, CallRequest, Challenge, Decision, Discharge,
    DischargeAttempt, DischargeProvider, DischargeVerifier, Presence, Rule, SessionId,
    StepUpPolicy,
};
