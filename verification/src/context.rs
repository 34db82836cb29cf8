//! The mint token that proves a tool call passed the leash, and the checks
//! that it offers to the tool.

use vstd::prelude::*;
use vstd::string::*;

use crate::caveats::{Caveats, CaveatsView, Scope, ScopeView};
use crate::error::{ToolError, ToolResult};
use crate::paths::{components, file_name, lies_within};
use crate::paths::{path_components, path_file_name, path_is_within};
use crate::report::{EnforcementFloor, FloorView};
use crate::sandbox::SandboxKind;
use crate::sets::{members, views};
use crate::text::{quote, quoted};

verus! {

/// Proof that a tool call has passed the leash, with the authority that the
/// call may act under. Only a gate makes one.
#[derive(Debug)]
pub struct ToolContext {
    effective: Caveats,
    sandbox_kind: SandboxKind,
    strength_floor: EnforcementFloor,
}

/// The exec axis allows `program`: as it is named, or by its file name.
pub open spec fn exec_allows(scope: ScopeView<Seq<char>>, program: Seq<char>) -> bool {
    scope.allows(program) || (file_name(program) matches Some(base) && scope.allows(base))
}

/// The refusal of a program.
pub open spec fn exec_refusal(program: Seq<char>) -> Seq<char> {
    "exec of "@ + quoted(program) + " is not within the granted authority"@
}

/// The refusal of a host.
pub open spec fn net_refusal(host: Seq<char>) -> Seq<char> {
    "network access to "@ + quoted(host) + " is not within the granted authority"@
}

/// The refusal of a path that cannot be resolved.
pub open spec fn unresolved_refusal(op: Seq<char>, path: Seq<char>, cause: Seq<char>) -> Seq<char> {
    op + " of "@ + quoted(path) + " denied: cannot canonicalize ("@ + cause + ")"@
}

/// The refusal of a path outside the granted roots.
pub open spec fn outside_refusal(op: Seq<char>, path: Seq<char>, canonical: Seq<char>) -> Seq<char> {
    op + " of "@ + path + " (resolved "@ + canonical + ") is not within the granted fs_"@ + op
        + " scope"@
}

/// The refusal of a path that left the granted root while it was opened.
pub open spec fn escape_refusal(op: Seq<char>, path: Seq<char>, cause: Seq<char>) -> Seq<char> {
    op + " of "@ + path + " escaped the granted fs_"@ + op + " scope during resolution ("@ + cause
        + ")"@
}

/// One granted filesystem entry and the real location that it resolves to, if
/// it resolves.
#[derive(Debug, Clone, PartialEq, Eq)]
pub struct ResolvedRoot {
    /// The entry as granted.
    pub entry: String,
    /// The symlink-free location of the entry.
    pub canonical: Option<String>,
}

impl ResolvedRoot {
    /// The entry is granted and its location covers `path`.
    pub open spec fn covers(self, granted: Set<Seq<char>>, path: Seq<char>) -> bool {
        granted.contains(self.entry@) && (self.canonical matches Some(base) && lies_within(
            path,
            base@,
        ))
    }
}

/// What the filesystem says of a path that is to be checked: its own
/// symlink-free location or why there is none, and the locations of the
/// granted entries.
#[derive(Debug, PartialEq, Eq)]
pub struct PathLookup {
    /// The location of the path, or the reason why it has none.
    pub resolved: Result<String, String>,
    /// The granted entries with their locations.
    pub roots: Vec<ResolvedRoot>,
}

/// How a mediated open proceeds.
#[derive(Debug, Clone, PartialEq, Eq)]
pub enum OpenPlan {
    /// The axis is unrestricted: open the path as it is.
    Plain,
    /// Open `rel` beneath `base`, and nowhere else.
    Beneath {
        /// The location of the granted root.
        base: String,
        /// The path below it.
        rel: String,
    },
}

/// The first of the roots that is granted and covers `path`, or the number of
/// roots where none does.
pub open spec fn first_covering(
    roots: Seq<ResolvedRoot>,
    granted: Set<Seq<char>>,
    path: Seq<char>,
) -> int
    decreases roots.len(),
{
    if roots.len() == 0 || roots[0].covers(granted, path) {
        0
    } else {
        1 + first_covering(roots.subrange(1, roots.len() as int), granted, path)
    }
}

proof fn lemma_first_covering(
    roots: Seq<ResolvedRoot>,
    granted: Set<Seq<char>>,
    path: Seq<char>,
    i: int,
)
    requires
        0 <= i <= roots.len(),
        i < roots.len() ==> roots[i].covers(granted, path),
        forall|k: int| 0 <= k < i ==> !(#[trigger] roots[k]).covers(granted, path),
    ensures
        first_covering(roots, granted, path) == i,
    decreases roots.len(),
{
    if i > 0 {
        assert(!roots[0].covers(granted, path));
        let tail = roots.subrange(1, roots.len() as int);
        assert forall|k: int| 0 <= k < i - 1 implies !(#[trigger] tail[k]).covers(granted, path) by {
            assert(tail[k] == roots[k + 1]);
        }
        lemma_first_covering(tail, granted, path, i - 1);
    }
}

/// The parts, separated by `/`.
pub open spec fn slash_joined(parts: Seq<Seq<char>>) -> Seq<char>
    decreases parts.len(),
{
    if parts.len() == 0 {
        Seq::empty()
    } else if parts.len() == 1 {
        parts[0]
    } else {
        slash_joined(parts.drop_last()) + "/"@ + parts.last()
    }
}

/// The path of `canonical` below `base`.
pub open spec fn below(canonical: Seq<char>, base: Seq<char>) -> Seq<char> {
    slash_joined(
        components(canonical).subrange(
            components(base).len() as int,
            components(canonical).len() as int,
        ),
    )
}

/// What a path check decides: an unrestricted axis allows every path; a
/// restricted one refuses a path without a location, and allows one with a
/// location exactly where a granted root covers it. `Ok` carries the place of
/// the first such root, or none on an unrestricted axis.
pub open spec fn path_decision(
    axis: ScopeView<Seq<char>>,
    path: Seq<char>,
    op: Seq<char>,
    lookup: PathLookup,
) -> Result<Option<int>, Seq<char>> {
    match axis {
        ScopeView::All => Ok(None),
        ScopeView::Only(granted) => match lookup.resolved {
            Err(cause) => Err(unresolved_refusal(op, path, cause@)),
            Ok(canonical) => {
                let i = first_covering(lookup.roots@, granted, canonical@);
                if i < lookup.roots@.len() {
                    Ok(Some(i))
                } else {
                    Err(outside_refusal(op, path, canonical@))
                }
            },
        },
    }
}

/// The decision of a path check: `Ok` with the place of the granted root that
/// covers the path (none on an unrestricted axis), or the refusal.
fn decide_path(axis: &Scope<String>, path: &str, op: &str, lookup: &PathLookup) -> (r: ToolResult<
    Option<usize>,
>)
    ensures
        match path_decision(axis@, path@, op@, *lookup) {
            Ok(None) => r == Ok::<Option<usize>, ToolError>(None),
            Ok(Some(i)) => r is Ok && r->Ok_0 is Some && r->Ok_0->0 == i && i < lookup.roots@.len(),
            Err(reason) => r is Err && r->Err_0.is_denial(reason),
        },
{
    let granted = match axis {
        Scope::All => {
            return Ok(None);
        },
        Scope::Only(set) => set,
    };
    let canonical: &String = match &lookup.resolved {
        Err(cause) => {
            return Err(
                ToolError::denied(
                    op.to_owned().concat(" of ").concat(quote(path).as_str()).concat(
                        " denied: cannot canonicalize (",
                    ).concat(cause.as_str()).concat(")"),
                ),
            );
        },
        Ok(canonical) => canonical,
    };
    let mut i: usize = 0;
    while i < lookup.roots.len()
        invariant
            i <= lookup.roots.len(),
            axis@ == ScopeView::Only(granted@),
            lookup.resolved == Ok::<String, String>(*canonical),
            forall|k: int|
                0 <= k < i ==> !(#[trigger] lookup.roots@[k]).covers(granted@, canonical@),
        decreases lookup.roots.len() - i,
    {
        let root: &ResolvedRoot = &lookup.roots[i];
        if let Some(base) = &root.canonical {
            if granted.contains(&root.entry) && path_is_within(canonical.as_str(), base.as_str()) {
                proof {
                    lemma_first_covering(lookup.roots@, granted@, canonical@, i as int);
                }
                return Ok(Some(i));
            }
        }
        i = i + 1;
    }
    proof {
        lemma_first_covering(lookup.roots@, granted@, canonical@, i as int);
    }
    Err(
        ToolError::denied(
            op.to_owned().concat(" of ").concat(path).concat(" (resolved ").concat(
                canonical.as_str(),
            ).concat(") is not within the granted fs_").concat(op).concat(" scope"),
        ),
    )
}

impl Clone for ToolContext {
    fn clone(&self) -> (r: Self)
        ensures
            r.spec_caveats() == self.spec_caveats(),
            r.spec_sandbox_kind() == self.spec_sandbox_kind(),
            r.spec_floor() == self.spec_floor(),
    {
        ToolContext {
            effective: self.effective.clone(),
            sandbox_kind: self.sandbox_kind,
            strength_floor: self.strength_floor,
        }
    }
}

impl ToolContext {
    /// The authority that the call may act under.
    pub closed spec fn spec_caveats(self) -> CaveatsView {
        self.effective@
    }

    /// The boundary around the call.
    pub closed spec fn spec_sandbox_kind(self) -> SandboxKind {
        self.sandbox_kind
    }

    /// The required strength on each axis.
    pub closed spec fn spec_floor(self) -> FloorView {
        self.strength_floor@
    }

    /// The only place where a context comes into being.
    pub(crate) fn mint(
        effective: Caveats,
        sandbox_kind: SandboxKind,
        strength_floor: EnforcementFloor,
    ) -> (r: Self)
        ensures
            r.spec_caveats() == effective@,
            r.spec_sandbox_kind() == sandbox_kind,
            r.spec_floor() == strength_floor@,
    {
        ToolContext { effective, sandbox_kind, strength_floor }
    }

    /// The effective authority: at most the grant, and at most what the tool
    /// declared.
    pub fn caveats(&self) -> (r: &Caveats)
        ensures
            r@ == self.spec_caveats(),
    {
        &self.effective
    }

    /// The operating-system boundary in force.
    pub fn sandbox_kind(&self) -> (r: SandboxKind)
        ensures
            r == self.spec_sandbox_kind(),
    {
        self.sandbox_kind
    }

    /// The strength below which a confinement site refuses to start anything.
    pub fn strength_floor(&self) -> (r: EnforcementFloor)
        ensures
            r@ == self.spec_floor(),
    {
        self.strength_floor
    }

    /// May this call execute `program`? Yes where the exec axis is
    /// unrestricted, or names the program as given or its file name.
    pub fn check_exec(&self, program: &str) -> (r: ToolResult<()>)
        ensures
            r is Ok <==> exec_allows(self.spec_caveats().exec, program@),
            r matches Err(e) ==> e.is_denial(exec_refusal(program@)),
    {
        let granted: bool = match &self.effective.exec {
            Scope::All => true,
            Scope::Only(programs) => {
                if programs.contains(&program.to_owned()) {
                    true
                } else {
                    match path_file_name(program) {
                        Some(base) => programs.contains(&base),
                        None => false,
                    }
                }
            },
        };
        if granted {
            Ok(())
        } else {
            Err(
                ToolError::denied(
                    "exec of ".to_owned().concat(quote(program).as_str()).concat(
                        " is not within the granted authority",
                    ),
                ),
            )
        }
    }

    /// May this call reach `host`? Yes where the net axis is unrestricted or
    /// names exactly this host.
    pub fn check_net(&self, host: &str) -> (r: ToolResult<()>)
        ensures
            r is Ok <==> self.spec_caveats().net.allows(host@),
            r matches Err(e) ==> e.is_denial(net_refusal(host@)),
    {
        if self.effective.net.allows(&host.to_owned()) {
            Ok(())
        } else {
            Err(
                ToolError::denied(
                    "network access to ".to_owned().concat(quote(host).as_str()).concat(
                        " is not within the granted authority",
                    ),
                ),
            )
        }
    }

    /// May this call read `path`, given what the filesystem says of it and of
    /// the granted read entries?
    pub fn check_path_read(&self, path: &str, lookup: &PathLookup) -> (r: ToolResult<()>)
        ensures
            match path_decision(self.spec_caveats().fs_read, path@, "read"@, *lookup) {
                Ok(_) => r is Ok,
                Err(reason) => r is Err && r->Err_0.is_denial(reason),
            },
    {
        match decide_path(&self.effective.fs_read, path, "read", lookup) {
            Ok(_) => Ok(()),
            Err(e) => Err(e),
        }
    }

    /// May this call write `path`, given what the filesystem says of it and of
    /// the granted write entries?
    pub fn check_path_write(&self, path: &str, lookup: &PathLookup) -> (r: ToolResult<()>)
        ensures
            match path_decision(self.spec_caveats().fs_write, path@, "write"@, *lookup) {
                Ok(_) => r is Ok,
                Err(reason) => r is Err && r->Err_0.is_denial(reason),
            },
    {
        match decide_path(&self.effective.fs_write, path, "write", lookup) {
            Ok(_) => Ok(()),
            Err(e) => Err(e),
        }
    }
}

/// The entries of a filesystem axis that have to be located before a path can
/// be checked against it: none where the axis is unrestricted.
pub fn entries_to_resolve(axis: &Scope<String>) -> (r: Option<Vec<String>>)
    ensures
        match axis@ {
            ScopeView::All => r is None,
            ScopeView::Only(granted) => r is Some && members(r->0@) == granted
                && crate::sets::ascending(r->0@),
        },
{
    match axis {
        Scope::All => None,
        Scope::Only(set) => Some(copy_strings(set.as_vec())),
    }
}

/// A copy of a list of strings.
pub(crate) fn copy_strings(items: &Vec<String>) -> (r: Vec<String>)
    ensures
        r@ == items@,
{
    let r: Vec<String> = items.clone();
    assert forall|i: int| 0 <= i < items@.len() implies r@[i] == items@[i] by {
        assert(cloned::<String>(items@[i], r@[i]));
    }
    assert(r@ =~= items@);
    r
}

/// Decide a mediated open against one axis: unrestricted, it opens the path as
/// it is; otherwise the path is opened below the first granted root that
/// covers it, or refused.
pub fn plan_open(axis: &Scope<String>, path: &str, op: &str, lookup: &PathLookup) -> (r: ToolResult<
    OpenPlan,
>)
    ensures
        match path_decision(axis@, path@, op@, *lookup) {
            Ok(None) => r == Ok::<OpenPlan, ToolError>(OpenPlan::Plain),
            Ok(Some(i)) => r matches Ok(OpenPlan::Beneath { base, rel }) && base@
                == lookup.roots@[i].canonical->0@ && rel@ == below(
                lookup.resolved->Ok_0@,
                base@,
            ),
            Err(reason) => r is Err && r->Err_0.is_denial(reason),
        },
{
    match decide_path(axis, path, op, lookup) {
        Err(e) => Err(e),
        Ok(None) => Ok(OpenPlan::Plain),
        Ok(Some(i)) => {
            let ghost granted = axis@->Only_0;
            proof {
                lemma_first_covering_covers(
                    lookup.roots@,
                    granted,
                    lookup.resolved->Ok_0@,
                );
            }
            match (&lookup.resolved, &lookup.roots[i].canonical) {
                (Ok(canonical), Some(base)) => Ok(
                    OpenPlan::Beneath {
                        base: base.clone(),
                        rel: path_below(canonical.as_str(), base.as_str()),
                    },
                ),
                _ => vstd::pervasive::unreached(),
            }
        },
    }
}

proof fn lemma_first_covering_covers(
    roots: Seq<ResolvedRoot>,
    granted: Set<Seq<char>>,
    path: Seq<char>,
)
    ensures
        0 <= first_covering(roots, granted, path) <= roots.len(),
        first_covering(roots, granted, path) < roots.len() ==> roots[first_covering(
            roots,
            granted,
            path,
        )].covers(granted, path),
    decreases roots.len(),
{
    if roots.len() > 0 && !roots[0].covers(granted, path) {
        let tail = roots.subrange(1, roots.len() as int);
        lemma_first_covering_covers(tail, granted, path);
    }
}

/// The path of `canonical` below `base`.
fn path_below(canonical: &str, base: &str) -> (r: String)
    requires
        lies_within(canonical@, base@),
    ensures
        r@ == below(canonical@, base@),
{
    let c: Vec<String> = path_components(canonical);
    let n: usize = path_components(base).len();
    proof {
        assert(views(c@).len() == c@.len());
        assert(components(base@).len() == n);
    }
    let mut r: String = String::new();
    let mut i: usize = n;
    let ghost parts = components(canonical@);
    assert(parts.subrange(n as int, n as int) =~= Seq::empty());
    while i < c.len()
        invariant
            n <= i <= c.len(),
            views(c@) == parts,
            r@ == slash_joined(parts.subrange(n as int, i as int)),
        decreases c.len() - i,
    {
        proof {
            let longer = parts.subrange(n as int, i + 1);
            assert(longer.drop_last() =~= parts.subrange(n as int, i as int));
            assert(longer.last() == c@[i as int]@);
        }
        if i > n {
            r = r.concat("/").concat(c[i].as_str());
        } else {
            r = c[i].clone();
        }
        i = i + 1;
    }
    r
}

/// The error of a mediated open that failed: an escape from the granted root
/// is a refusal, anything else an ordinary failure.
pub fn open_failure(op: &str, path: &str, escaped: bool, cause: &str) -> (r: ToolError)
    ensures
        escaped ==> r.is_denial(escape_refusal(op@, path@, cause@)),
        !escaped ==> (r matches ToolError::Exec(text) && text@ == cause@),
{
    if escaped {
        ToolError::denied(
            op.to_owned().concat(" of ").concat(path).concat(" escaped the granted fs_").concat(
                op,
            ).concat(" scope during resolution (").concat(cause).concat(")"),
        )
    } else {
        ToolError::Exec(cause.to_owned())
    }
}

/// A granted root that does not resolve authorizes nothing, and neither does
/// one that was not granted: a path passes a restricted axis only where its
/// location lies within the location of a granted entry.
pub proof fn law_a_path_passes_only_below_a_granted_root(
    granted: Set<Seq<char>>,
    path: Seq<char>,
    op: Seq<char>,
    lookup: PathLookup,
)
    ensures
        path_decision(ScopeView::Only(granted), path, op, lookup) is Ok <==> lookup.resolved is Ok
            && exists|i: int|
            0 <= i < lookup.roots@.len() && (#[trigger] lookup.roots@[i]).covers(
                granted,
                lookup.resolved->Ok_0@,
            ),
{
    if lookup.resolved is Ok {
        let canonical = lookup.resolved->Ok_0@;
        lemma_first_covering_covers(lookup.roots@, granted, canonical);
        if exists|i: int|
            0 <= i < lookup.roots@.len() && (#[trigger] lookup.roots@[i]).covers(
                granted,
                canonical,
            ) {
            let i = choose|i: int|
                0 <= i < lookup.roots@.len() && (#[trigger] lookup.roots@[i]).covers(
                    granted,
                    canonical,
                );
            lemma_covering_bounds(lookup.roots@, granted, canonical, i);
        }
    }
}

proof fn lemma_covering_bounds(
    roots: Seq<ResolvedRoot>,
    granted: Set<Seq<char>>,
    path: Seq<char>,
    i: int,
)
    requires
        0 <= i < roots.len(),
        roots[i].covers(granted, path),
    ensures
        first_covering(roots, granted, path) <= i,
    decreases roots.len(),
{
    if !roots[0].covers(granted, path) {
        lemma_covering_bounds(roots.subrange(1, roots.len() as int), granted, path, i - 1);
    }
}

/// A wider exec grant never refuses a program that a narrower one allows.
pub proof fn law_exec_checks_are_monotonic(
    narrow: ScopeView<Seq<char>>,
    wide: ScopeView<Seq<char>>,
    program: Seq<char>,
)
    requires
        narrow.leq(wide),
    ensures
        exec_allows(narrow, program) ==> exec_allows(wide, program),
{
}

/// A planned open names the file that was checked. On an unrestricted axis the
/// path is opened as it is. On a restricted one it is opened exactly where the
/// path has a location and a granted entry has one whose components begin it:
/// then below the location of the first such entry, by a path whose components
/// are the rest, so that joining the two gives the checked location back.
pub proof fn law_a_planned_open_names_the_checked_file(
    axis: &Scope<String>,
    path: &str,
    op: &str,
    lookup: &PathLookup,
    r: ToolResult<OpenPlan>,
)
    requires
        call_ensures(plan_open, (axis, path, op, lookup), r),
    ensures
        axis@ is All ==> r == Ok::<OpenPlan, ToolError>(OpenPlan::Plain),
        axis@ matches ScopeView::Only(granted) ==> (r is Ok <==> lookup.resolved is Ok && exists|
            i: int,
        |
            0 <= i < lookup.roots@.len() && granted.contains((#[trigger] lookup.roots@[i]).entry@)
                && (lookup.roots@[i].canonical matches Some(b) && components(b@).is_prefix_of(
                components(lookup.resolved->Ok_0@),
            ))),
        axis@ is Only && r is Ok ==> r->Ok_0 is Beneath,
        axis@ matches ScopeView::Only(granted) ==> (r matches Ok(OpenPlan::Beneath { base, rel })
            ==> {
            let checked = lookup.resolved->Ok_0@;
            &&& components(base@) + components(rel@) == components(checked)
            &&& base@.len() > 0 ==> components(base@.push('/') + rel@) == components(checked)
            &&& exists|i: int|
                0 <= i < lookup.roots@.len() && granted.contains(
                    (#[trigger] lookup.roots@[i]).entry@,
                ) && (lookup.roots@[i].canonical matches Some(b) && b@ == base@) && forall|k: int|
                    0 <= k < i && granted.contains((#[trigger] lookup.roots@[k]).entry@) ==> !(
                    lookup.roots@[k].canonical matches Some(b) && components(b@).is_prefix_of(
                        components(checked),
                    ))
        }),
{
    if axis@ is Only && lookup.resolved is Ok {
        let granted = axis@->Only_0;
        let checked = lookup.resolved->Ok_0@;
        law_a_path_passes_only_below_a_granted_root(granted, path@, op@, *lookup);
        lemma_first_covering_covers(lookup.roots@, granted, checked);
        let i = first_covering(lookup.roots@, granted, checked);
        assert forall|k: int| 0 <= k < lookup.roots@.len() implies (
        #[trigger] lookup.roots@[k]).covers(granted, checked) == (granted.contains(
            lookup.roots@[k].entry@,
        ) && (lookup.roots@[k].canonical matches Some(b) && components(b@).is_prefix_of(
            components(checked),
        ))) by {}
        if i < lookup.roots@.len() {
            assert(lookup.roots@[i].covers(granted, checked));
            let base = lookup.roots@[i].canonical->0@;
            lemma_below(checked, base);
            assert forall|k: int| 0 <= k < i implies !(#[trigger] lookup.roots@[k]).covers(
                granted,
                checked,
            ) by {
                if lookup.roots@[k].covers(granted, checked) {
                    lemma_covering_bounds(lookup.roots@, granted, checked, k);
                }
            }
        }
    }
}

proof fn lemma_below(checked: Seq<char>, base: Seq<char>)
    requires
        lies_within(checked, base),
    ensures
        components(base) + components(below(checked, base)) == components(checked),
        base.len() > 0 ==> components(base.push('/') + below(checked, base)) == components(checked),
{
    let all = components(checked);
    let n = components(base).len() as int;
    let parts = all.subrange(n, all.len() as int);
    assert(components(base) + parts =~= all);
    assert forall|i: int| 0 <= i < parts.len() implies (#[trigger] parts[i]) == all[n + i] by {}
    assert forall|i: int| 0 < i < parts.len() implies crate::paths::follows(
        #[trigger] parts[i],
    ) by {
        crate::paths::law_components_are_names(checked, n + i);
    }
    if parts.len() > 0 {
        crate::paths::law_components_are_names(checked, n);
    }
    crate::paths::lemma_components_read_back(parts);
    if base.len() > 0 {
        lemma_some_component(base);
        assert forall|i: int| 0 <= i < parts.len() implies crate::paths::follows(
            #[trigger] parts[i],
        ) by {
            crate::paths::law_components_are_names(checked, n + i);
        }
        crate::paths::lemma_components_behind(base, parts, below(checked, base));
    }
}

proof fn lemma_some_component(path: Seq<char>)
    requires
        path.len() > 0,
    ensures
        components(path).len() > 0,
    decreases path.len(),
{
    if path.contains('/') {
        crate::text::laws::law_the_last_place_is_the_last(path, '/');
        let front = path.subrange(0, crate::text::last_at(path, '/'));
        let name = path.subrange(crate::text::last_at(path, '/') + 1, path.len() as int);
        assert(path =~= front.push('/') + name);
        crate::paths::law_components_are_the_names_between_separators(front, name);
        if front.len() > 0 {
            lemma_some_component(front);
        }
    } else {
        crate::paths::law_components_are_the_names_between_separators(Seq::empty(), path);
    }
}

/// A program may run where the exec axis is unrestricted, lists it as it is
/// given, or lists the name behind its last separator; and in no other case. A
/// host may be reached where the net axis is unrestricted or lists exactly it.
pub proof fn law_a_program_is_granted_as_given_or_by_its_name(
    cx: &ToolContext,
    dir: Seq<char>,
    name: Seq<char>,
    program: &str,
    r: ToolResult<()>,
    host: &str,
    n: ToolResult<()>,
)
    requires
        call_ensures(ToolContext::check_exec, (cx, program), r),
        call_ensures(ToolContext::check_net, (cx, host), n),
        crate::paths::follows(name) && name != seq!['.', '.'],
    ensures
        program@ == dir.push('/') + name ==> (r is Ok <==> cx.spec_caveats().exec is All
            || cx.spec_caveats().exec->Only_0.contains(program@)
            || cx.spec_caveats().exec->Only_0.contains(name)),
        program@ == name ==> (r is Ok <==> cx.spec_caveats().exec is All
            || cx.spec_caveats().exec->Only_0.contains(name)),
        n is Ok <==> cx.spec_caveats().net is All || cx.spec_caveats().net->Only_0.contains(host@),
        r is Err ==> r->Err_0 is Denied,
        n is Err ==> n->Err_0 is Denied,
{
    crate::paths::law_a_file_name_stands_last(dir, name);
}

/// The root is granted, and the location lies in its own: the components of the
/// root's location are the first of the location's.
pub open spec fn holds_location(
    root: ResolvedRoot,
    granted: Set<Seq<char>>,
    location: Seq<char>,
) -> bool {
    granted.contains(root.entry@) && root.canonical is Some && components(
        root.canonical->0@,
    ).len() <= components(location).len() && forall|k: int|
        0 <= k < components(root.canonical->0@).len() ==> #[trigger] components(
            root.canonical->0@,
        )[k] == components(location)[k]
}

proof fn lemma_holds_location(root: ResolvedRoot, granted: Set<Seq<char>>, location: Seq<char>)
    ensures
        holds_location(root, granted, location) <==> root.covers(granted, location),
{
    if root.canonical is Some {
        let b = components(root.canonical->0@);
        let c = components(location);
        if root.covers(granted, location) {
            assert(b == c.subrange(0, b.len() as int));
        }
        if holds_location(root, granted, location) {
            assert(b =~= c.subrange(0, b.len() as int));
        }
    }
}

/// A path may be read, written or opened where the axis is unrestricted, or where
/// the path has a location within that of one of the granted roots; an open
/// takes the first such root. In no other case.
pub proof fn law_a_path_is_granted_by_its_location(
    cx: &ToolContext,
    path: &str,
    lookup: &PathLookup,
    read: ToolResult<()>,
    write: ToolResult<()>,
    axis: &Scope<String>,
    op: &str,
    plan: ToolResult<OpenPlan>,
)
    requires
        call_ensures(ToolContext::check_path_read, (cx, path, lookup), read),
        call_ensures(ToolContext::check_path_write, (cx, path, lookup), write),
        call_ensures(plan_open, (axis, path, op, lookup), plan),
    ensures
        read is Ok <==> cx.spec_caveats().fs_read is All || (lookup.resolved is Ok && exists|i: int|
            0 <= i < lookup.roots@.len() && holds_location(
                #[trigger] lookup.roots@[i],
                cx.spec_caveats().fs_read->Only_0,
                lookup.resolved->Ok_0@,
            )),
        write is Ok <==> cx.spec_caveats().fs_write is All || (lookup.resolved is Ok && exists|
            i: int,
        |
            0 <= i < lookup.roots@.len() && holds_location(
                #[trigger] lookup.roots@[i],
                cx.spec_caveats().fs_write->Only_0,
                lookup.resolved->Ok_0@,
            )),
        plan is Ok <==> axis@ is All || (lookup.resolved is Ok && exists|i: int|
            0 <= i < lookup.roots@.len() && holds_location(
                #[trigger] lookup.roots@[i],
                axis@->Only_0,
                lookup.resolved->Ok_0@,
            )),
        read is Err ==> read->Err_0 is Denied,
        write is Err ==> write->Err_0 is Denied,
        plan is Err ==> plan->Err_0 is Denied,
        plan == Ok::<OpenPlan, ToolError>(OpenPlan::Plain) <==> axis@ is All,
        forall|i: int|
            axis@ is Only && lookup.resolved is Ok && 0 <= i < lookup.roots@.len()
                && holds_location(
                #[trigger] lookup.roots@[i],
                axis@->Only_0,
                lookup.resolved->Ok_0@,
            ) && (forall|k: int|
                0 <= k < i ==> !holds_location(
                    #[trigger] lookup.roots@[k],
                    axis@->Only_0,
                    lookup.resolved->Ok_0@,
                )) ==> plan is Ok && plan->Ok_0 is Beneath && plan->Ok_0->base@
                == lookup.roots@[i].canonical->0@,
{
    if lookup.resolved is Ok {
        let location = lookup.resolved->Ok_0@;
        lemma_granted_location(lookup.roots@, cx.spec_caveats().fs_read->Only_0, location);
        lemma_granted_location(lookup.roots@, cx.spec_caveats().fs_write->Only_0, location);
        lemma_granted_location(lookup.roots@, axis@->Only_0, location);
    }
}

proof fn lemma_granted_location(
    roots: Seq<ResolvedRoot>,
    granted: Set<Seq<char>>,
    location: Seq<char>,
)
    ensures
        first_covering(roots, granted, location) < roots.len() <==> exists|i: int|
            0 <= i < roots.len() && holds_location(#[trigger] roots[i], granted, location),
        forall|i: int|
            0 <= i < roots.len() && holds_location(#[trigger] roots[i], granted, location) && (
            forall|k: int|
                0 <= k < i ==> !holds_location(#[trigger] roots[k], granted, location))
                ==> first_covering(roots, granted, location) == i,
{
    lemma_first_covering_covers(roots, granted, location);
    let n = first_covering(roots, granted, location);
    if n < roots.len() {
        lemma_holds_location(roots[n], granted, location);
    }
    if exists|i: int|
        0 <= i < roots.len() && holds_location(#[trigger] roots[i], granted, location) {
        let i = choose|i: int|
            0 <= i < roots.len() && holds_location(#[trigger] roots[i], granted, location);
        lemma_holds_location(roots[i], granted, location);
        if n >= roots.len() {
            lemma_none_covers(roots, granted, location, i);
        }
    }
    assert forall|i: int|
        0 <= i < roots.len() && holds_location(#[trigger] roots[i], granted, location) && (forall|
            k: int,
        |
            0 <= k < i ==> !holds_location(#[trigger] roots[k], granted, location)) implies n
        == i by {
        lemma_holds_location(roots[i], granted, location);
        assert forall|k: int| 0 <= k < i implies !(#[trigger] roots[k]).covers(
            granted,
            location,
        ) by {
            lemma_holds_location(roots[k], granted, location);
        }
        lemma_first_covering(roots, granted, location, i);
    }
}

proof fn lemma_none_covers(
    roots: Seq<ResolvedRoot>,
    granted: Set<Seq<char>>,
    location: Seq<char>,
    i: int,
)
    requires
        0 <= i < roots.len(),
        roots[i].covers(granted, location),
    ensures
        first_covering(roots, granted, location) < roots.len(),
    decreases roots.len(),
{
    if !roots[0].covers(granted, location) {
        let tail = roots.subrange(1, roots.len() as int);
        assert(tail[i - 1] == roots[i]);
        lemma_none_covers(tail, granted, location, i - 1);
    }
}

/// What has to be located before a check is exactly what the axis lists, and
/// nothing on an unrestricted axis. A failed open is a refusal exactly where the
/// path escaped.
pub proof fn law_the_listed_entries_are_located(
    axis: &Scope<String>,
    r: Option<Vec<String>>,
    op: &str,
    path: &str,
    escaped: bool,
    cause: &str,
    e: ToolError,
)
    requires
        call_ensures(entries_to_resolve, (axis,), r),
        call_ensures(open_failure, (op, path, escaped, cause), e),
    ensures
        r is None <==> axis@ is All,
        r is Some ==> forall|x: Seq<char>| #[trigger]
            axis@->Only_0.contains(x) <==> exists|i: int|
                0 <= i < r->0@.len() && (#[trigger] r->0@[i])@ == x,
        e is Denied <==> escaped,
{
    if r is Some {
        assert forall|x: Seq<char>| #[trigger] axis@->Only_0.contains(x) <==> exists|i: int|
            0 <= i < r->0@.len() && (#[trigger] r->0@[i])@ == x by {
            crate::sets::lemma_members_contains(r->0@, x);
        }
    }
}

} // verus!
