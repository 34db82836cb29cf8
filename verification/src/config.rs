//! The configuration of the leash: mechanism, never authority.
//!
//! Path lists, limits and toggles shape how confinement is applied. Nothing
//! here widens what a grant allows. Every default is stated exactly.

use vstd::prelude::*;
use vstd::string::*;

use crate::report::AxisEnforcement;
use crate::sets::{views, OrderedSet};
use crate::text::str_equal;

verus! {

/// The texts of a slice, in order.
pub open spec fn texts(items: Seq<&str>) -> Seq<Seq<char>> {
    items.map_values(|s: &str| s@)
}

fn to_vec(items: &[&str]) -> (r: Vec<String>)
    ensures
        views(r@) == texts(items@),
{
    let mut r: Vec<String> = Vec::new();
    let mut i: usize = 0;
    while i < items.len()
        invariant
            i <= items.len(),
            views(r@) == texts(items@).take(i as int),
        decreases items.len() - i,
    {
        let ghost before = r@;
        r.push(items[i].to_owned());
        assert(views(r@) =~= views(before).push(items@[i as int]@));
        assert(texts(items@).take(i + 1) =~= texts(items@).take(i as int).push(
            items@[i as int]@,
        ));
        i = i + 1;
    }
    assert(texts(items@).take(i as int) =~= texts(items@));
    r
}

/// A list of paths that an operator may extend. Without `replace` the list is
/// the built-in one and the additions; with it, the additions alone.
#[derive(Debug, Clone, PartialEq, Eq)]
pub struct PathList {
    /// The built-in paths.
    pub base: Vec<String>,
    /// The additions of the operator.
    pub extra: Vec<String>,
    /// Whether the additions stand in place of the built-in paths.
    pub replace: bool,
}

/// The list with one more entry, unless it is already there.
pub open spec fn with_new(list: Seq<Seq<char>>, entry: Seq<char>) -> Seq<Seq<char>> {
    if list.contains(entry) {
        list
    } else {
        list.push(entry)
    }
}

/// The list with more entries, each added once, in their order.
pub open spec fn extended(base: Seq<Seq<char>>, extra: Seq<Seq<char>>) -> Seq<Seq<char>>
    decreases extra.len(),
{
    if extra.len() == 0 {
        base
    } else {
        with_new(extended(base, extra.drop_last()), extra.last())
    }
}

fn holds(list: &Vec<String>, entry: &str) -> (r: bool)
    ensures
        r == views(list@).contains(entry@),
{
    let mut i: usize = 0;
    while i < list.len()
        invariant
            i <= list.len(),
            forall|k: int| 0 <= k < i ==> views(list@)[k] != entry@,
        decreases list.len() - i,
    {
        assert(views(list@)[i as int] == list@[i as int]@);
        if str_equal(list[i].as_str(), entry) {
            return true;
        }
        i = i + 1;
    }
    assert(views(list@).len() == list@.len());
    false
}

impl PathList {
    /// The list is the built-in one, untouched.
    pub open spec fn is_builtin(self, base: Seq<Seq<char>>) -> bool {
        views(self.base@) == base && self.extra@.len() == 0 && !self.replace
    }

    /// The paths that the list stands for.
    pub open spec fn resolved(self) -> Seq<Seq<char>> {
        if self.replace {
            views(self.extra@)
        } else {
            extended(views(self.base@), views(self.extra@))
        }
    }

    /// The list with built-in paths and no additions.
    pub fn from_defaults(base: &[&str]) -> (r: Self)
        ensures
            r.is_builtin(texts(base@)),
    {
        PathList { base: to_vec(base), extra: Vec::new(), replace: false }
    }

    /// The paths that the list stands for: each addition once, behind the
    /// built-in paths, or the additions alone.
    pub fn resolve(&self) -> (r: Vec<String>)
        ensures
            views(r@) == self.resolved(),
    {
        if self.replace {
            return crate::context::copy_strings(&self.extra);
        }
        let mut r: Vec<String> = crate::context::copy_strings(&self.base);
        let ghost base = views(self.base@);
        let ghost extra = views(self.extra@);
        let mut i: usize = 0;
        assert(extra.take(0) =~= Seq::empty());
        assert(extra.len() == self.extra@.len());
        while i < self.extra.len()
            invariant
                i <= self.extra.len(),
                extra == views(self.extra@),
                extra.len() == self.extra@.len(),
                views(r@) == extended(base, extra.take(i as int)),
            decreases self.extra.len() - i,
        {
            proof {
                let longer = extra.take(i + 1);
                assert(longer.drop_last() =~= extra.take(i as int));
                assert(longer.last() == self.extra@[i as int]@);
            }
            if !holds(&r, self.extra[i].as_str()) {
                let ghost before = r@;
                r.push(self.extra[i].clone());
                assert(views(r@) =~= views(before).push(self.extra@[i as int]@));
            }
            i = i + 1;
        }
        assert(extra.take(i as int) =~= extra);
        r
    }

    /// Whether the operator has widened the built-in list.
    pub fn widens(&self) -> (r: bool)
        ensures
            r == (!self.replace && self.extra@.len() > 0),
    {
        !self.replace && self.extra.len() > 0
    }
}

/// Whether calls are confined at all.
#[derive(Debug, Clone, Copy, PartialEq, Eq, Structural)]
pub enum BridleMode {
    /// Confine.
    Bridled,
    /// Do not confine: an explicit choice, never reached by omission.
    Unbridle,
}

impl Default for BridleMode {
    fn default() -> (r: Self)
        ensures
            r == BridleMode::Bridled,
    {
        BridleMode::Bridled
    }
}

/// Defaults of a gate.
#[derive(Debug, Clone, PartialEq, Eq)]
pub struct GatePolicy {
    /// The strength floor where none is set.
    pub default_strength_floor: AxisEnforcement,
    /// The longest scan for a fresh discharge, in generations.
    pub max_freshness_window: u64,
}

impl Default for GatePolicy {
    fn default() -> (r: Self)
        ensures
            r.default_strength_floor == AxisEnforcement::Advisory,
            r.max_freshness_window == 4096,
    {
        GatePolicy {
            default_strength_floor: AxisEnforcement::Advisory,
            max_freshness_window: 4096,
        }
    }
}

/// Which backends are required or switched off.
#[derive(Debug, Clone, PartialEq, Eq)]
pub struct BackendToggles {
    /// Landlock has to be available.
    pub require_landlock: bool,
    /// Seatbelt has to be available.
    pub require_seatbelt: bool,
    /// Backends that are switched off, by name.
    pub disable: Vec<String>,
}

impl Default for BackendToggles {
    fn default() -> (r: Self)
        ensures
            !r.require_landlock && !r.require_seatbelt && r.disable@.len() == 0,
    {
        BackendToggles { require_landlock: false, require_seatbelt: false, disable: Vec::new() }
    }
}

/// The paths readable where reads are restricted.
pub open spec fn default_base_read_paths() -> Seq<Seq<char>> {
    seq![
        "/lib"@,
        "/lib64"@,
        "/lib32"@,
        "/libx32"@,
        "/usr/lib"@,
        "/usr/lib64"@,
        "/usr/libexec"@,
        "/usr/share"@,
        "/etc/ld.so.cache"@,
        "/etc/ld.so.preload"@,
        "/etc/alternatives"@,
        "/etc/nsswitch.conf"@,
        "/etc/localtime"@,
        "/etc/resolv.conf"@,
        "/etc/ssl"@,
        "/etc/ca-certificates"@,
        "/proc/self"@,
        "/dev/null"@,
        "/dev/zero"@,
        "/dev/full"@,
        "/dev/urandom"@,
        "/dev/random"@,
    ]
}

/// The directories of programs, readable where any program may run.
pub open spec fn default_bin_read_paths() -> Seq<Seq<char>> {
    seq![
        "/usr/bin"@,
        "/bin"@,
        "/usr/sbin"@,
        "/sbin"@,
        "/usr/local/bin"@,
        "/usr/local/sbin"@,
        "/opt"@,
    ]
}

/// The dynamic loaders.
pub open spec fn default_loader_paths() -> Seq<Seq<char>> {
    seq![
        "/lib64/ld-linux-x86-64.so.2"@,
        "/lib/ld-linux-x86-64.so.2"@,
        "/lib/ld-linux.so.2"@,
        "/lib/x86_64-linux-gnu/ld-linux-x86-64.so.2"@,
        "/lib64/ld64.so.2"@,
        "/lib/ld-linux-aarch64.so.1"@,
        "/lib/aarch64-linux-gnu/ld-linux-aarch64.so.1"@,
        "/lib/ld-linux-armhf.so.3"@,
        "/lib/ld-musl-x86-64.so.1"@,
        "/lib/ld-musl-aarch64.so.1"@,
    ]
}

/// The names of the loopback interface.
pub open spec fn default_loopback_hosts() -> Seq<Seq<char>> {
    seq!["localhost"@, "127.0.0.1"@, "::1"@]
}

/// Path lists and floors of the sandbox.
#[derive(Debug, Clone, PartialEq, Eq)]
pub struct SandboxPolicy {
    /// Backend toggles.
    pub backends: BackendToggles,
    /// What is readable where reads are restricted.
    pub base_read_paths: PathList,
    /// The directories of programs.
    pub bin_read_paths: PathList,
    /// The dynamic loaders.
    pub loader_paths: PathList,
    /// The names of the loopback interface.
    pub loopback_hosts: Vec<String>,
    /// The least Landlock ABI.
    pub landlock_abi_floor: u32,
    /// The least Landlock ABI for network rules.
    pub landlock_net_abi_floor: u32,
    /// The trusted inventory of protected roots, where there is one.
    pub named_root_protected_roots: Option<OrderedSet<String>>,
}

impl Default for SandboxPolicy {
    fn default() -> (r: Self)
        ensures
            !r.backends.require_landlock && !r.backends.require_seatbelt
                && r.backends.disable@.len() == 0,
            r.base_read_paths.is_builtin(default_base_read_paths()),
            r.bin_read_paths.is_builtin(default_bin_read_paths()),
            r.loader_paths.is_builtin(default_loader_paths()),
            views(r.loopback_hosts@) == default_loopback_hosts(),
            r.landlock_abi_floor == 3,
            r.landlock_net_abi_floor == 4,
            r.named_root_protected_roots is None,
    {
        let base = PathList::from_defaults(
            &[
                "/lib",
                "/lib64",
                "/lib32",
                "/libx32",
                "/usr/lib",
                "/usr/lib64",
                "/usr/libexec",
                "/usr/share",
                "/etc/ld.so.cache",
                "/etc/ld.so.preload",
                "/etc/alternatives",
                "/etc/nsswitch.conf",
                "/etc/localtime",
                "/etc/resolv.conf",
                "/etc/ssl",
                "/etc/ca-certificates",
                "/proc/self",
                "/dev/null",
                "/dev/zero",
                "/dev/full",
                "/dev/urandom",
                "/dev/random",
            ],
        );
        assert(views(base.base@) =~= default_base_read_paths());
        let bin = PathList::from_defaults(
            &[
                "/usr/bin",
                "/bin",
                "/usr/sbin",
                "/sbin",
                "/usr/local/bin",
                "/usr/local/sbin",
                "/opt",
            ],
        );
        assert(views(bin.base@) =~= default_bin_read_paths());
        let loader = PathList::from_defaults(
            &[
                "/lib64/ld-linux-x86-64.so.2",
                "/lib/ld-linux-x86-64.so.2",
                "/lib/ld-linux.so.2",
                "/lib/x86_64-linux-gnu/ld-linux-x86-64.so.2",
                "/lib64/ld64.so.2",
                "/lib/ld-linux-aarch64.so.1",
                "/lib/aarch64-linux-gnu/ld-linux-aarch64.so.1",
                "/lib/ld-linux-armhf.so.3",
                "/lib/ld-musl-x86-64.so.1",
                "/lib/ld-musl-aarch64.so.1",
            ],
        );
        assert(views(loader.base@) =~= default_loader_paths());
        let hosts: Vec<String> = to_vec(&["localhost", "127.0.0.1", "::1"]);
        assert(views(hosts@) =~= default_loopback_hosts());
        SandboxPolicy {
            backends: BackendToggles::default(),
            base_read_paths: base,
            bin_read_paths: bin,
            loader_paths: loader,
            loopback_hosts: hosts,
            landlock_abi_floor: 3,
            landlock_net_abi_floor: 4,
            named_root_protected_roots: None,
        }
    }
}

/// The runtime data that a program reads: locale, time zone, certificates,
/// resolver and loader configuration, devices; never a program.
pub open spec fn default_data_paths() -> Seq<Seq<char>> {
    seq![
        "/usr/share"@,
        "/etc/ld.so.cache"@,
        "/etc/ld.so.preload"@,
        "/etc/alternatives"@,
        "/etc/nsswitch.conf"@,
        "/etc/localtime"@,
        "/etc/resolv.conf"@,
        "/etc/ssl"@,
        "/etc/ca-certificates"@,
        "/proc/self"@,
        "/dev/null"@,
        "/dev/zero"@,
        "/dev/full"@,
        "/dev/urandom"@,
        "/dev/random"@,
    ]
}

/// Where a bare program name is searched for.
pub open spec fn default_search_dirs() -> Seq<Seq<char>> {
    seq![
        "/usr/local/bin"@,
        "/usr/bin"@,
        "/bin"@,
        "/usr/local/sbin"@,
        "/usr/sbin"@,
        "/sbin"@,
    ]
}

/// What the builder of a minimal root tree goes by.
#[derive(Debug, Clone, PartialEq, Eq)]
pub struct RootfsPolicy {
    /// The runtime data in every plan.
    pub data_paths: PathList,
    /// Where a bare program name is searched for, without a search path.
    pub search_dirs: Vec<String>,
}

impl Default for RootfsPolicy {
    fn default() -> (r: Self)
        ensures
            r.data_paths.is_builtin(default_data_paths()),
            views(r.search_dirs@) == default_search_dirs(),
    {
        let data = PathList::from_defaults(
            &[
                "/usr/share",
                "/etc/ld.so.cache",
                "/etc/ld.so.preload",
                "/etc/alternatives",
                "/etc/nsswitch.conf",
                "/etc/localtime",
                "/etc/resolv.conf",
                "/etc/ssl",
                "/etc/ca-certificates",
                "/proc/self",
                "/dev/null",
                "/dev/zero",
                "/dev/full",
                "/dev/urandom",
                "/dev/random",
            ],
        );
        assert(views(data.base@) =~= default_data_paths());
        let search: Vec<String> = to_vec(
            &[
                "/usr/local/bin",
                "/usr/bin",
                "/bin",
                "/usr/local/sbin",
                "/usr/sbin",
                "/sbin",
            ],
        );
        assert(views(search@) =~= default_search_dirs());
        RootfsPolicy { data_paths: data, search_dirs: search }
    }
}

/// Which automatic assists are on. Each is a matter of function, never of
/// confinement.
#[derive(Debug, Clone, Copy, PartialEq, Eq, Structural)]
pub struct NormalizationPolicy {
    /// A granted bare name also matches the last component of a program.
    pub exec_basename_match: bool,
    /// The shared libraries of a program are planned with it.
    pub ldd_closure: bool,
    /// The name-service modules are planned with the C library.
    pub nss_closure_fallback: bool,
    /// The standard library of Python is planned with it.
    pub python_closure_fallback: bool,
    /// A missing shared library is diagnosed.
    pub missing_so_canary: bool,
    /// Built root trees are cached.
    pub rootfs_cache: bool,
}

impl Default for NormalizationPolicy {
    fn default() -> (r: Self)
        ensures
            r.exec_basename_match && r.ldd_closure && r.nss_closure_fallback
                && r.python_closure_fallback && r.missing_so_canary && r.rootfs_cache,
    {
        NormalizationPolicy {
            exec_basename_match: true,
            ldd_closure: true,
            nss_closure_fallback: true,
            python_closure_fallback: true,
            missing_so_canary: true,
            rootfs_cache: true,
        }
    }
}

/// What holds of a host that no rule matches.
#[derive(Debug, Clone, Copy, PartialEq, Eq, Structural)]
pub enum NetDefault {
    /// It is refused.
    Deny,
    /// It is allowed.
    Allow,
}

impl Default for NetDefault {
    fn default() -> (r: Self)
        ensures
            r == NetDefault::Deny,
    {
        NetDefault::Deny
    }
}

/// How a host is matched.
#[derive(Debug, Clone, PartialEq, Eq)]
#[non_exhaustive]
pub enum HostMatch {
    /// By its exact name.
    Exact(String),
    /// By the end of its name.
    Suffix(String),
    /// By a pattern.
    Glob(String),
}

/// One rule for the network.
#[derive(Debug, Clone, PartialEq, Eq)]
#[non_exhaustive]
pub enum NetRule {
    /// A host is allowed.
    Host(HostMatch),
}

/// How the network axis is refined.
#[derive(Debug, Clone, PartialEq, Eq)]
pub struct NetPolicy {
    /// What holds where no rule matches.
    pub default: NetDefault,
    /// The rules, in order.
    pub rules: Vec<NetRule>,
}

impl Default for NetPolicy {
    fn default() -> (r: Self)
        ensures
            r.default == NetDefault::Deny,
            r.rules@.len() == 0,
    {
        NetPolicy { default: NetDefault::Deny, rules: Vec::new() }
    }
}

/// The variables that are expanded in redirections.
pub open spec fn default_var_allowlist() -> Seq<Seq<char>> {
    seq![
        "HOME"@,
        "PWD"@,
        "OLDPWD"@,
        "USER"@,
        "LOGNAME"@,
        "TMPDIR"@,
        "LANG"@,
        "LC_ALL"@,
        "SHELL"@,
        "HOSTNAME"@,
        "TERM"@,
    ]
}

/// Limits of the shell tool and of the egress proxy.
#[derive(Debug, Clone, PartialEq, Eq)]
pub struct LimitsPolicy {
    /// The longest timeout, in seconds.
    pub max_timeout_secs: u64,
    /// The timeout where none is given, in seconds.
    pub default_timeout_secs: u64,
    /// The most captured output, in bytes.
    pub max_output_bytes: usize,
    /// The variables that are expanded in redirections.
    pub var_allowlist: Vec<String>,
    /// The deepest nesting of a pattern.
    pub max_glob_depth: usize,
    /// The most matches of a pattern.
    pub max_glob_matches: usize,
    /// The longest request head of the proxy, in bytes.
    pub proxy_max_head: usize,
    /// The socket timeout of the proxy, in seconds.
    pub proxy_conn_timeout_secs: u64,
    /// Where the proxy listens.
    pub proxy_bind: String,
    /// Where the egress audit is written, if anywhere.
    pub audit_sink: Option<String>,
}

impl Default for LimitsPolicy {
    fn default() -> (r: Self)
        ensures
            r.max_timeout_secs == 300,
            r.default_timeout_secs == 60,
            r.max_output_bytes == 1048576,
            views(r.var_allowlist@) == default_var_allowlist(),
            r.max_glob_depth == 64,
            r.max_glob_matches == 4096,
            r.proxy_max_head == 8192,
            r.proxy_conn_timeout_secs == 30,
            r.proxy_bind@ == "127.0.0.1:0"@,
            r.audit_sink is None,
    {
        let vars: Vec<String> = to_vec(
            &[
                "HOME",
                "PWD",
                "OLDPWD",
                "USER",
                "LOGNAME",
                "TMPDIR",
                "LANG",
                "LC_ALL",
                "SHELL",
                "HOSTNAME",
                "TERM",
            ],
        );
        assert(views(vars@) =~= default_var_allowlist());
        LimitsPolicy {
            max_timeout_secs: 300,
            default_timeout_secs: 60,
            max_output_bytes: 1048576,
            var_allowlist: vars,
            max_glob_depth: 64,
            max_glob_matches: 4096,
            proxy_max_head: 8192,
            proxy_conn_timeout_secs: 30,
            proxy_bind: "127.0.0.1:0".to_owned(),
            audit_sink: None,
        }
    }
}

/// Limits of web fetches.
#[derive(Debug, Clone, Copy, PartialEq, Eq, Structural)]
pub struct WebPolicy {
    /// The most redirects.
    pub max_redirects: usize,
    /// The longest body where no limit is given, in bytes.
    pub default_max_bytes: usize,
    /// The longest body that can be asked for, in bytes.
    pub hard_max_bytes: usize,
    /// The timeout of a request, in seconds.
    pub request_timeout_secs: u64,
}

impl Default for WebPolicy {
    fn default() -> (r: Self)
        ensures
            r.max_redirects == 10,
            r.default_max_bytes == 5 * 1024 * 1024,
            r.hard_max_bytes == 25 * 1024 * 1024,
            r.request_timeout_secs == 30,
    {
        WebPolicy {
            max_redirects: 10,
            default_max_bytes: 5242880,
            hard_max_bytes: 26214400,
            request_timeout_secs: 30,
        }
    }
}

/// The top-level links of a merged file hierarchy.
pub open spec fn default_merged_usr_links() -> Seq<Seq<char>> {
    seq![
        "bin"@,
        "sbin"@,
        "lib"@,
        "lib32"@,
        "lib64"@,
        "libx32"@,
    ]
}

/// Parameters of the micro-VM.
#[derive(Debug, Clone, PartialEq, Eq)]
pub struct VmPolicy {
    /// Candidates for the emulator.
    pub qemu_path: Vec<String>,
    /// Where the guest kernel is searched for.
    pub kernel_search: Vec<String>,
    /// Guest memory, in MiB.
    pub memory_mb: u32,
    /// The accelerator.
    pub accel: String,
    /// The command line of the guest kernel.
    pub kernel_cmdline: String,
    /// The top-level links to reproduce.
    pub merged_usr_links: Vec<String>,
    /// The longest frame of the broker protocol, in bytes.
    pub max_frame: usize,
    /// The socket of the broker.
    pub jaild_socket: Option<String>,
    /// The init program of the guest.
    pub jail_init: Option<String>,
}

impl Default for VmPolicy {
    fn default() -> (r: Self)
        ensures
            views(r.qemu_path@) == seq!["/usr/bin/qemu-system-x86_64"@],
            views(r.kernel_search@) == seq!["/boot/vmlinuz"@],
            r.memory_mb == 512,
            r.accel@ == "kvm:tcg"@,
            r.kernel_cmdline@ == "console=ttyS0 panic=1 loglevel=4"@,
            views(r.merged_usr_links@) == default_merged_usr_links(),
            r.max_frame == 64 * 1024 * 1024,
            r.jaild_socket is None,
            r.jail_init is None,
    {
        let qemu: Vec<String> = to_vec(&["/usr/bin/qemu-system-x86_64"]);
        assert(views(qemu@) =~= seq!["/usr/bin/qemu-system-x86_64"@]);
        let kernel: Vec<String> = to_vec(&["/boot/vmlinuz"]);
        assert(views(kernel@) =~= seq!["/boot/vmlinuz"@]);
        let links: Vec<String> = to_vec(
            &[
                "bin",
                "sbin",
                "lib",
                "lib32",
                "lib64",
                "libx32",
            ],
        );
        assert(views(links@) =~= default_merged_usr_links());
        VmPolicy {
            qemu_path: qemu,
            kernel_search: kernel,
            memory_mb: 512,
            accel: "kvm:tcg".to_owned(),
            kernel_cmdline: "console=ttyS0 panic=1 loglevel=4".to_owned(),
            merged_usr_links: links,
            max_frame: 67108864,
            jaild_socket: None,
            jail_init: None,
        }
    }
}

/// The whole configuration.
#[derive(Debug, Clone, PartialEq, Eq)]
pub struct BridleConfig {
    /// Whether calls are confined at all.
    pub mode: BridleMode,
    /// Defaults of a gate.
    pub gate: GatePolicy,
    /// Path lists and floors of the sandbox.
    pub sandbox: SandboxPolicy,
    /// Automatic assists.
    pub normalization: NormalizationPolicy,
    /// The builder of a minimal root tree.
    pub rootfs: RootfsPolicy,
    /// The network.
    pub net: NetPolicy,
    /// Limits of the shell and of the proxy.
    pub limits: LimitsPolicy,
    /// Limits of web fetches.
    pub web: WebPolicy,
    /// The micro-VM.
    pub vm: VmPolicy,
}

impl Default for BridleConfig {
    fn default() -> (r: Self)
        ensures
            r.mode == BridleMode::Bridled,
            r.gate.default_strength_floor == AxisEnforcement::Advisory,
            r.gate.max_freshness_window == 4096,
            r.sandbox.base_read_paths.is_builtin(default_base_read_paths()),
            r.sandbox.bin_read_paths.is_builtin(default_bin_read_paths()),
            r.sandbox.loader_paths.is_builtin(default_loader_paths()),
            r.sandbox.named_root_protected_roots is None,
            call_ensures(SandboxPolicy::default, (), r.sandbox),
            call_ensures(NormalizationPolicy::default, (), r.normalization),
            call_ensures(RootfsPolicy::default, (), r.rootfs),
            call_ensures(NetPolicy::default, (), r.net),
            call_ensures(LimitsPolicy::default, (), r.limits),
            call_ensures(WebPolicy::default, (), r.web),
            call_ensures(VmPolicy::default, (), r.vm),
    {
        BridleConfig {
            mode: BridleMode::default(),
            gate: GatePolicy::default(),
            sandbox: SandboxPolicy::default(),
            normalization: NormalizationPolicy::default(),
            rootfs: RootfsPolicy::default(),
            net: NetPolicy::default(),
            limits: LimitsPolicy::default(),
            web: WebPolicy::default(),
            vm: VmPolicy::default(),
        }
    }
}

/// Additions without `replace` never drop a built-in path: the list begins
/// with the built-in paths, and holds every addition.
pub proof fn law_additions_never_shrink_a_list(list: PathList)
    requires
        !list.replace,
    ensures
        list.resolved().len() >= views(list.base@).len(),
        list.resolved().take(views(list.base@).len() as int) == views(list.base@),
        forall|i: int|
            0 <= i < views(list.extra@).len() ==> list.resolved().contains(
                #[trigger] views(list.extra@)[i],
            ),
{
    lemma_extended(views(list.base@), views(list.extra@));
}

proof fn lemma_extended(base: Seq<Seq<char>>, extra: Seq<Seq<char>>)
    ensures
        extended(base, extra).len() >= base.len(),
        extended(base, extra).take(base.len() as int) == base,
        forall|i: int|
            0 <= i < extra.len() ==> extended(base, extra).contains(#[trigger] extra[i]),
    decreases extra.len(),
{
    if extra.len() == 0 {
        assert(base.take(base.len() as int) =~= base);
    } else {
        let shorter = extended(base, extra.drop_last());
        let r = extended(base, extra);
        lemma_extended(base, extra.drop_last());
        assert(r.take(base.len() as int) =~= shorter.take(base.len() as int));
        assert forall|i: int| 0 <= i < extra.len() implies r.contains(#[trigger] extra[i]) by {
            if i < extra.len() - 1 {
                assert(extra.drop_last()[i] == extra[i]);
                assert(shorter.contains(extra[i]));
                let k = choose|k: int| 0 <= k < shorter.len() && shorter[k] == extra[i];
                assert(r[k] == extra[i]);
            } else if !shorter.contains(extra.last()) {
                assert(r[shorter.len() as int] == extra[i]);
            }
        }
    }
}

/// Resolving a list keeps its built-in paths first and in their order and puts
/// behind them each addition that is not there yet, once and in order of first
/// mention; a list that is replaced is its additions alone.
pub proof fn law_a_resolved_list_is_its_paths_and_its_additions(list: &PathList, r: Vec<String>)
    requires
        call_ensures(PathList::resolve, (list,), r),
    ensures
        list.replace ==> r@.map_values(|p: String| p@) == list.extra@.map_values(|p: String| p@),
        !list.replace ==> {
            let base = list.base@.map_values(|p: String| p@);
            let extra = list.extra@.map_values(|p: String| p@);
            let all = r@.map_values(|p: String| p@);
            &&& base.len() <= all.len() && all.take(base.len() as int) == base
            &&& forall|i: int|
                base.len() <= i < all.len() ==> extra.contains(#[trigger] all[i])
                    && !all.take(i).contains(all[i])
            &&& forall|k: int| 0 <= k < extra.len() ==> all.contains(#[trigger] extra[k])
        },
{
    let base = views(list.base@);
    let extra = views(list.extra@);
    assert(list.base@.map_values(|p: String| p@) =~= base);
    assert(list.extra@.map_values(|p: String| p@) =~= extra);
    assert(r@.map_values(|p: String| p@) =~= views(r@));
    if !list.replace {
        lemma_extended(base, extra);
        lemma_extended_once(base, extra);
    }
}

proof fn lemma_extended_once(base: Seq<Seq<char>>, extra: Seq<Seq<char>>)
    ensures
        extended(base, extra).len() >= base.len(),
        forall|i: int|
            base.len() <= i < extended(base, extra).len() ==> extra.contains(
                #[trigger] extended(base, extra)[i],
            ) && !extended(base, extra).take(i).contains(extended(base, extra)[i]),
    decreases extra.len(),
{
    if extra.len() > 0 {
        let less = extra.drop_last();
        let shorter = extended(base, less);
        let r = extended(base, extra);
        lemma_extended_once(base, less);
        assert forall|i: int| base.len() <= i < r.len() implies extra.contains(#[trigger] r[i])
            && !r.take(i).contains(r[i]) by {
            if i < shorter.len() {
                assert(r[i] == shorter[i]);
                assert(r.take(i) =~= shorter.take(i));
                let k = choose|k: int| 0 <= k < less.len() && less[k] == shorter[i];
                assert(extra[k] == r[i]);
            } else {
                assert(r[i] == extra.last());
                assert(extra[extra.len() - 1] == r[i]);
                assert(r.take(i) =~= shorter);
            }
        }
    }
}

/// The defaults agree with each other and with what they configure: calls are
/// confined and unmatched hosts refused; what a minimal tree holds for reading
/// is readable under a sandbox and is no directory of programs; bare names are
/// searched for in the directories of programs; the loopback names are those
/// that count as loopback; no default limit exceeds its ceiling; and the window
/// and the head of the configuration are those that are enforced.
pub proof fn law_the_defaults_agree(config: BridleConfig)
    requires
        call_ensures(BridleConfig::default, (), config),
    ensures
        config.mode == BridleMode::Bridled,
        config.net.default == NetDefault::Deny && config.net.rules@.len() == 0,
        config.gate.max_freshness_window == crate::gate::MAX_FRESHNESS_WINDOW,
        config.limits.proxy_max_head == crate::net_proxy::session::MAX_HEAD,
        config.limits.default_timeout_secs <= config.limits.max_timeout_secs,
        config.web.default_max_bytes <= config.web.hard_max_bytes,
        config.sandbox.landlock_abi_floor <= config.sandbox.landlock_net_abi_floor,
        config.sandbox.named_root_protected_roots is None,
        forall|i: int|
            0 <= i < config.sandbox.loopback_hosts@.len() ==> crate::sandbox::is_loopback_name(
                (#[trigger] config.sandbox.loopback_hosts@[i])@,
            ),
        forall|h: Seq<char>| #[trigger]
            crate::sandbox::is_loopback_name(h) ==> config.sandbox.loopback_hosts@.map_values(
                |t: String| t@,
            ).contains(h),
        forall|p: Seq<char>| #[trigger]
            config.rootfs.data_paths.resolved().contains(p)
                ==> config.sandbox.base_read_paths.resolved().contains(p),
        forall|i: int|
            0 <= i < config.rootfs.search_dirs@.len()
                ==> config.sandbox.bin_read_paths.resolved().contains(
                (#[trigger] config.rootfs.search_dirs@[i])@,
            ),
{
    let none = Seq::<Seq<char>>::empty();
    assert(views(config.rootfs.data_paths.extra@) =~= none);
    assert(views(config.sandbox.base_read_paths.extra@) =~= none);
    assert(views(config.sandbox.bin_read_paths.extra@) =~= none);
    let data = default_data_paths();
    let base = default_base_read_paths();
    let bin = default_bin_read_paths();
    let dirs = default_search_dirs();
    let hosts = config.sandbox.loopback_hosts@;
    assert(views(hosts) =~= hosts.map_values(|t: String| t@));
    assert(views(hosts).len() == hosts.len());
    assert forall|i: int| 0 <= i < hosts.len() implies crate::sandbox::is_loopback_name(
        (#[trigger] hosts[i])@,
    ) by {
        assert(views(hosts)[i] == hosts[i]@);
    }
    assert forall|h: Seq<char>| #[trigger] crate::sandbox::is_loopback_name(h) implies views(
        hosts,
    ).contains(h) by {
        assert(views(hosts)[0] == "localhost"@ && views(hosts)[1] == "127.0.0.1"@ && views(hosts)[2]
            == "::1"@);
    }
    assert forall|p: Seq<char>| #[trigger]
        config.rootfs.data_paths.resolved().contains(
            p,
        ) implies config.sandbox.base_read_paths.resolved().contains(p) by {
        let i = choose|i: int| 0 <= i < data.len() && data[i] == p;
        assert(base[i + 7] == data[i]);
    }
    assert(config.rootfs.search_dirs@.len() == dirs.len());
    assert forall|i: int|
        0 <= i < config.rootfs.search_dirs@.len() implies config.sandbox.bin_read_paths.resolved().contains(
        (#[trigger] config.rootfs.search_dirs@[i])@,
    ) by {
        assert(views(config.rootfs.search_dirs@)[i] == config.rootfs.search_dirs@[i]@);
        assert(bin[4] == dirs[0] && bin[0] == dirs[1] && bin[1] == dirs[2] && bin[5] == dirs[3]
            && bin[2] == dirs[4] && bin[3] == dirs[5]);
        assert(bin.contains(dirs[0]) && bin.contains(dirs[1]) && bin.contains(dirs[2])
            && bin.contains(dirs[3]) && bin.contains(dirs[4]) && bin.contains(dirs[5]));
    }
}

} // verus!
