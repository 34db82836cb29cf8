//! The confinement backends and the shapes of authority that they can express.

use vstd::prelude::*;

use crate::caveats::{Caveats, CaveatsView, Scope, ScopeView};
use crate::sets::{lemma_members_contains, members};

verus! {

/// The operating-system boundary around a spawned child.
#[derive(Debug, Clone, Copy, PartialEq, Eq, Structural)]
pub enum SandboxKind {
    /// No boundary.
    Unconfined,
    /// Linux Landlock.
    Landlock,
    /// macOS Seatbelt.
    Seatbelt,
    /// A jail that holds only the granted programs.
    MinimalRootfs,
    /// A virtual machine without a network device.
    MicroVm,
    /// Windows AppContainer.
    AppContainer,
}

impl SandboxKind {
    /// The text that [`SandboxKind::name`] gives.
    pub open spec fn name_text(self) -> Seq<char> {
        match self {
            SandboxKind::Unconfined => "None"@,
            SandboxKind::Landlock => "Landlock"@,
            SandboxKind::Seatbelt => "Seatbelt"@,
            SandboxKind::MinimalRootfs => "MinimalRootfs"@,
            SandboxKind::MicroVm => "MicroVm"@,
            SandboxKind::AppContainer => "AppContainer"@,
        }
    }

    /// The name of the backend, as it stands in a refusal.
    pub fn name(&self) -> (r: &'static str)
        ensures
            r@ == self.name_text(),
    {
        match self {
            SandboxKind::Unconfined => "None",
            SandboxKind::Landlock => "Landlock",
            SandboxKind::Seatbelt => "Seatbelt",
            SandboxKind::MinimalRootfs => "MinimalRootfs",
            SandboxKind::MicroVm => "MicroVm",
            SandboxKind::AppContainer => "AppContainer",
        }
    }
}

/// How a child's own sockets are dealt with.
#[derive(Debug, Clone, Copy, PartialEq, Eq, Structural)]
pub enum ChildNetworkPolicy {
    /// Only what the Landlock ruleset denies.
    LandlockOnly,
    /// Every off-box socket family is denied as well.
    DenyDirect,
}

/// Which executables the exec witness of a mechanism speaks of.
#[derive(Debug, Clone, Copy, PartialEq, Eq, Structural)]
pub enum ExecBoundary {
    /// Every program that runs is a granted one.
    GrantedPrograms,
    /// The root program is a granted one; its descendants are not bounded.
    NamedRoot,
}

/// The host names and addresses of the loopback interface.
pub open spec fn is_loopback_name(host: Seq<char>) -> bool {
    host == "localhost"@ || host == "127.0.0.1"@ || host == "::1"@
}

fn is_loopback(host: &String) -> (r: bool)
    ensures
        r == is_loopback_name(host@),
{
    *host == "localhost".to_owned() || *host == "127.0.0.1".to_owned() || *host == "::1".to_owned()
}

/// The network axis denies everything.
pub open spec fn net_denies_all(c: CaveatsView) -> bool {
    c.net == ScopeView::Only(Set::<Seq<char>>::empty())
}

/// The exec axis denies everything.
pub open spec fn exec_denies_all(c: CaveatsView) -> bool {
    c.exec == ScopeView::Only(Set::<Seq<char>>::empty())
}

/// Every host that the network axis allows is a loopback name.
pub open spec fn net_is_loopback_only(c: CaveatsView) -> bool {
    c.net matches ScopeView::Only(hosts) && forall|h: Seq<char>|
        #[trigger] hosts.contains(h) ==> is_loopback_name(h)
}

/// The network axis denotes the whole loopback interface, no less and no more:
/// its name, or both of its addresses.
pub open spec fn net_is_loopback_interface(c: CaveatsView) -> bool {
    &&& net_is_loopback_only(c)
    &&& c.net matches ScopeView::Only(hosts) && (hosts.contains("localhost"@) || (hosts.contains(
        "127.0.0.1"@,
    ) && hosts.contains("::1"@)))
}

/// The exec axis grants a shell whose launcher starts another program.
pub open spec fn exec_pulls_launcher(c: CaveatsView) -> bool {
    c.exec matches ScopeView::Only(programs) && (programs.contains("sh"@) || programs.contains(
        "/bin/sh"@,
    ))
}

/// Whether the network axis denies everything.
pub fn net_fully_denied(caveats: &Caveats) -> (r: bool)
    ensures
        r == net_denies_all(caveats@),
{
    match &caveats.net {
        Scope::All => false,
        Scope::Only(hosts) => hosts.is_empty(),
    }
}

/// Whether the exec axis denies everything.
pub fn exec_fully_denied(caveats: &Caveats) -> (r: bool)
    ensures
        r == exec_denies_all(caveats@),
{
    match &caveats.exec {
        Scope::All => false,
        Scope::Only(programs) => programs.is_empty(),
    }
}

/// Whether every granted host is a loopback name.
pub fn net_loopback_only(caveats: &Caveats) -> (r: bool)
    ensures
        r == net_is_loopback_only(caveats@),
{
    match &caveats.net {
        Scope::All => false,
        Scope::Only(set) => {
            let hosts: &Vec<String> = set.as_vec();
            let mut i: usize = 0;
            while i < hosts.len()
                invariant
                    i <= hosts.len(),
                    members(hosts@) == set@,
                    caveats@.net == ScopeView::Only(set@),
                    forall|k: int| 0 <= k < i ==> is_loopback_name((#[trigger] hosts@[k])@),
                decreases hosts.len() - i,
            {
                if !is_loopback(&hosts[i]) {
                    proof {
                        let host = hosts@[i as int]@;
                        lemma_members_contains(hosts@, host);
                        assert(members(hosts@).contains(host));
                        assert(!is_loopback_name(host));
                        assert(set@.contains(host));
                        assert(caveats@.net->Only_0.contains(host));
                    }
                    return false;
                }
                i = i + 1;
            }
            proof {
                assert forall|h: Seq<char>| #[trigger] set@.contains(h) implies is_loopback_name(
                    h,
                ) by {
                    lemma_members_contains(hosts@, h);
                }
            }
            true
        },
    }
}

/// Whether the network axis denotes the whole loopback interface.
pub fn net_loopback_full_interface(caveats: &Caveats) -> (r: bool)
    ensures
        r == net_is_loopback_interface(caveats@),
{
    match &caveats.net {
        Scope::All => false,
        Scope::Only(hosts) => {
            net_loopback_only(caveats) && (hosts.contains(&"localhost".to_owned())
                || (hosts.contains(&"127.0.0.1".to_owned()) && hosts.contains(&"::1".to_owned())))
        },
    }
}

/// Whether the exec axis grants a shell whose launcher starts another program.
pub fn exec_grant_pulls_launcher_variant(caveats: &Caveats) -> (r: bool)
    ensures
        r == exec_pulls_launcher(caveats@),
{
    match &caveats.exec {
        Scope::All => false,
        Scope::Only(programs) => {
            programs.contains(&"sh".to_owned()) || programs.contains(&"/bin/sh".to_owned())
        },
    }
}

/// The hosts that an egress proxy has to admit for this authority: none where
/// the network is unrestricted, denied altogether or confined to loopback, and
/// otherwise exactly the granted hosts, in ascending order.
pub fn net_egress_proxy_hosts(caveats: &Caveats) -> (r: Option<Vec<String>>)
    ensures
        r is Some <==> caveats@.net is Only && !net_is_loopback_only(caveats@),
        r matches Some(hosts) ==> caveats@.net == ScopeView::Only(members(hosts@))
            && crate::sets::ascending(hosts@),
{
    match &caveats.net {
        Scope::All => None,
        Scope::Only(set) => {
            if net_loopback_only(caveats) {
                None
            } else {
                let items: &Vec<String> = set.as_vec();
                let hosts: Vec<String> = items.clone();
                proof {
                    assert(hosts@.len() == items@.len());
                    assert forall|i: int| 0 <= i < items@.len() implies hosts@[i] == items@[i] by {
                        assert(cloned::<String>(items@[i], hosts@[i]));
                    }
                    assert(hosts@ =~= items@);
                }
                Some(hosts)
            }
        },
    }
}

/// What the predicates on an authority say, host by host and program by program:
/// an axis denies everything where it is restricted and lists nothing; the
/// network is confined to loopback where it lists none but `localhost`,
/// `127.0.0.1` and `::1`, and is the whole interface where besides it lists the
/// name or both addresses. A proxy is needed where the network is restricted and
/// lists any other host, and then admits exactly the listed hosts.
pub proof fn law_predicates_speak_of_what_is_listed(
    caveats: &Caveats,
    net_denied: bool,
    exec_denied: bool,
    loopback: bool,
    interface: bool,
    launcher: bool,
    proxied: Option<Vec<String>>,
)
    requires
        call_ensures(net_fully_denied, (caveats,), net_denied),
        call_ensures(exec_fully_denied, (caveats,), exec_denied),
        call_ensures(net_loopback_only, (caveats,), loopback),
        call_ensures(net_loopback_full_interface, (caveats,), interface),
        call_ensures(exec_grant_pulls_launcher_variant, (caveats,), launcher),
        call_ensures(net_egress_proxy_hosts, (caveats,), proxied),
    ensures
        net_denied <==> caveats@.net is Only && forall|h: Seq<char>|
            !#[trigger] caveats@.net->Only_0.contains(h),
        exec_denied <==> caveats@.exec is Only && forall|p: Seq<char>|
            !#[trigger] caveats@.exec->Only_0.contains(p),
        loopback <==> caveats@.net is Only && forall|h: Seq<char>| #[trigger]
            caveats@.net->Only_0.contains(h) ==> h == seq![
                'l',
                'o',
                'c',
                'a',
                'l',
                'h',
                'o',
                's',
                't',
            ] || h == seq!['1', '2', '7', '.', '0', '.', '0', '.', '1'] || h == seq![
                ':',
                ':',
                '1',
            ],
        interface <==> loopback && (caveats@.net->Only_0.contains("localhost"@) || (
        caveats@.net->Only_0.contains("127.0.0.1"@) && caveats@.net->Only_0.contains("::1"@))),
        launcher <==> caveats@.exec is Only && (caveats@.exec->Only_0.contains(seq!['s', 'h'])
            || caveats@.exec->Only_0.contains(seq!['/', 'b', 'i', 'n', '/', 's', 'h'])),
        proxied is Some <==> caveats@.net is Only && !loopback,
        proxied is Some ==> forall|h: Seq<char>| #[trigger]
            caveats@.net->Only_0.contains(h) <==> exists|i: int|
                0 <= i < proxied->0@.len() && (#[trigger] proxied->0@[i])@ == h,
{
    reveal_strlit("localhost");
    reveal_strlit("127.0.0.1");
    reveal_strlit("::1");
    reveal_strlit("sh");
    reveal_strlit("/bin/sh");
    assert("localhost"@ =~= seq!['l', 'o', 'c', 'a', 'l', 'h', 'o', 's', 't']);
    assert("127.0.0.1"@ =~= seq!['1', '2', '7', '.', '0', '.', '0', '.', '1']);
    assert("::1"@ =~= seq![':', ':', '1']);
    assert("sh"@ =~= seq!['s', 'h']);
    assert("/bin/sh"@ =~= seq!['/', 'b', 'i', 'n', '/', 's', 'h']);
    if caveats@.net is Only && forall|h: Seq<char>| !#[trigger] caveats@.net->Only_0.contains(h) {
        assert(caveats@.net->Only_0 =~= Set::empty());
    }
    if caveats@.exec is Only && forall|p: Seq<char>|
        !#[trigger] caveats@.exec->Only_0.contains(p) {
        assert(caveats@.exec->Only_0 =~= Set::empty());
    }
    if proxied is Some {
        assert forall|h: Seq<char>| #[trigger] caveats@.net->Only_0.contains(h) <==> exists|i: int|
            0 <= i < proxied->0@.len() && (#[trigger] proxied->0@[i])@ == h by {
            lemma_members_contains(proxied->0@, h);
        }
    }
}

} // verus!
