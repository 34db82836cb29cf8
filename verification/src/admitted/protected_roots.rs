//! The recorded inventory of protected roots. It bounds what a runtime closure
//! may add; it revokes nothing that was granted.

use vstd::prelude::*;
use vstd::string::*;

use crate::admitted::BackendProjection;
use crate::caveats::{Caveats, CaveatsView, Scope, ScopeView};
use crate::config::SandboxPolicy;
use crate::context::ResolvedRoot;
use crate::error::{ToolError, ToolResult};
use crate::paths::{has_parent_component, is_absolute, lies_within};
use crate::paths::{path_has_parent_component, path_is_absolute, path_is_within};
use crate::provenance::{AuthorityView, ResolvedScope, ResolvedView};
use crate::sets::{in_order, lemma_members_contains, members, views, OrderedSet};
use crate::text::str_equal;

verus! {

/// The location that the filesystem gave for `path`: the first answer counts.
pub open spec fn location(known: Seq<ResolvedRoot>, path: Seq<char>) -> Option<Seq<char>>
    decreases known.len(),
{
    if known.len() == 0 {
        None
    } else if known[0].entry@ == path {
        match known[0].canonical {
            Some(c) => Some(c@),
            None => None,
        }
    } else {
        location(known.subrange(1, known.len() as int), path)
    }
}

/// The location of an inventory or closure path: it is absolute, does not
/// climb, and the filesystem located it.
pub open spec fn canonical_of(path: Seq<char>, known: Seq<ResolvedRoot>) -> Option<Seq<char>> {
    if is_absolute(path) && !has_parent_component(path) {
        location(known, path)
    } else {
        None
    }
}

/// The refusal of a path without a location.
pub open spec fn unlocated_refusal() -> Seq<char> {
    "protected inventory/closure path is relative, unresolved or ambiguous"@
}

/// The refusal of an empty inventory.
pub open spec fn empty_inventory_refusal() -> Seq<char> {
    "NamedRoot requires a nonempty trusted protected-root inventory"@
}

fn unlocated() -> (r: ToolError)
    ensures
        r.is_denial(unlocated_refusal()),
{
    ToolError::denied(
        "protected inventory/closure path is relative, unresolved or ambiguous".to_owned(),
    )
}

/// The location of an inventory or closure path, given what the filesystem
/// says.
pub fn canonical_path(path: &str, known: &Vec<ResolvedRoot>) -> (r: ToolResult<String>)
    ensures
        match canonical_of(path@, known@) {
            Some(c) => r matches Ok(s) && s@ == c,
            None => r is Err && r->Err_0.is_denial(unlocated_refusal()),
        },
{
    if !path_is_absolute(path) || path_has_parent_component(path) {
        return Err(unlocated());
    }
    let mut i: usize = 0;
    assert(known@.subrange(0, known@.len() as int) =~= known@);
    while i < known.len()
        invariant
            i <= known.len(),
            canonical_of(path@, known@) == location(
                known@.subrange(i as int, known@.len() as int),
                path@,
            ),
        decreases known.len() - i,
    {
        proof {
            let rest = known@.subrange(i as int, known@.len() as int);
            assert(rest[0] == known@[i as int]);
            assert(rest.subrange(1, rest.len() as int) =~= known@.subrange(
                i + 1,
                known@.len() as int,
            ));
        }
        if str_equal(known[i].entry.as_str(), path) {
            return match &known[i].canonical {
                Some(c) => Ok(c.clone()),
                None => Err(unlocated()),
            };
        }
        i = i + 1;
    }
    Err(unlocated())
}

/// What the filesystem says of one prefix of a path.
#[derive(Debug, Clone, Copy, PartialEq, Eq, Structural)]
pub enum PrefixState {
    /// Nothing is there.
    Missing,
    /// Something is there that is no link.
    Ordinary,
    /// A link that leads somewhere.
    Link,
    /// A link that leads nowhere.
    DanglingLink,
    /// It cannot be inspected.
    Unreadable,
}

/// Nothing among the prefixes makes the location ambiguous.
pub open spec fn prefixes_are_sound(prefixes: Seq<PrefixState>) -> bool {
    forall|i: int|
        0 <= i < prefixes.len() ==> (#[trigger] prefixes[i]) != PrefixState::DanglingLink
            && prefixes[i] != PrefixState::Unreadable
}

/// The location of a path, given what the filesystem says of each of its
/// prefixes and where the walk to it ended. A dangling link is not mistaken for
/// a directory that is merely missing.
pub fn settle_location(prefixes: &Vec<PrefixState>, walked: Option<String>) -> (r: Option<String>)
    ensures
        r == (if prefixes_are_sound(prefixes@) {
            walked
        } else {
            None
        }),
{
    let mut i: usize = 0;
    while i < prefixes.len()
        invariant
            i <= prefixes.len(),
            prefixes_are_sound(prefixes@.take(i as int)),
        decreases prefixes.len() - i,
    {
        if prefixes[i] == PrefixState::DanglingLink || prefixes[i] == PrefixState::Unreadable {
            return None;
        }
        assert(prefixes@.take(i + 1) =~= prefixes@.take(i as int).push(prefixes@[i as int]));
        i = i + 1;
    }
    assert(prefixes@.take(i as int) =~= prefixes@);
    walked
}

/// All of the roots have a location.
pub open spec fn all_located(roots: Set<Seq<char>>, known: Seq<ResolvedRoot>) -> bool {
    forall|root: Seq<char>| #[trigger]
        roots.contains(root) ==> canonical_of(root, known) is Some
}

/// The locations of the roots.
pub open spec fn locations(roots: Set<Seq<char>>, known: Seq<ResolvedRoot>) -> Set<Seq<char>> {
    Set::new(
        |c: Seq<char>|
            exists|root: Seq<char>| #[trigger]
                roots.contains(root) && canonical_of(root, known) == Some(c),
    )
}

/// The located inventory, or why there is none: an empty inventory and a root
/// without a location are both refused.
pub open spec fn located_inventory(
    roots: Set<Seq<char>>,
    known: Seq<ResolvedRoot>,
) -> Result<Set<Seq<char>>, Seq<char>> {
    if roots == Set::<Seq<char>>::empty() {
        Err(empty_inventory_refusal())
    } else if !all_located(roots, known) {
        Err(unlocated_refusal())
    } else {
        Ok(locations(roots, known))
    }
}

/// The located inventory of protected roots.
pub fn canonicalize_protected_roots(
    roots: &OrderedSet<String>,
    known: &Vec<ResolvedRoot>,
) -> (r: ToolResult<OrderedSet<String>>)
    ensures
        match located_inventory(roots@, known@) {
            Ok(set) => r matches Ok(s) && s@ == set,
            Err(reason) => r is Err && r->Err_0.is_denial(reason),
        },
{
    if roots.is_empty() {
        return Err(
            ToolError::denied(
                "NamedRoot requires a nonempty trusted protected-root inventory".to_owned(),
            ),
        );
    }
    let items: &Vec<String> = roots.as_vec();
    let mut r: OrderedSet<String> = OrderedSet::new();
    let mut i: usize = 0;
    while i < items.len()
        invariant
            i <= items.len(),
            members(items@) == roots@,
            roots@ != Set::<Seq<char>>::empty(),
            forall|k: int|
                0 <= k < i ==> canonical_of((#[trigger] items@[k])@, known@) is Some,
            forall|c: Seq<char>|
                r@.contains(c) <==> exists|k: int|
                    0 <= k < i && canonical_of((#[trigger] items@[k])@, known@) == Some(c),
        decreases items.len() - i,
    {
        match canonical_path(items[i].as_str(), known) {
            Err(e) => {
                proof {
                    lemma_members_contains(items@, items@[i as int]@);
                    assert(roots@.contains(items@[i as int]@));
                }
                return Err(e);
            },
            Ok(c) => {
                r.insert(c);
            },
        }
        i = i + 1;
    }
    proof {
        assert forall|root: Seq<char>| #[trigger] roots@.contains(root) implies canonical_of(
            root,
            known@,
        ) is Some by {
            lemma_members_contains(items@, root);
        }
        assert forall|c: Seq<char>| r@.contains(c) <==> locations(roots@, known@).contains(c) by {
            if r@.contains(c) {
                let k = choose|k: int|
                    0 <= k < i && canonical_of((#[trigger] items@[k])@, known@) == Some(c);
                lemma_members_contains(items@, items@[k]@);
                assert(roots@.contains(items@[k]@));
            }
            if locations(roots@, known@).contains(c) {
                let root = choose|root: Seq<char>| #[trigger]
                    roots@.contains(root) && canonical_of(root, known@) == Some(c);
                lemma_members_contains(items@, root);
            }
        }
        assert(r@ =~= locations(roots@, known@));
    }
    Ok(r)
}

impl SandboxPolicy {
    /// The located inventory of protected roots. Without an inventory, and
    /// where a root has no location, there is none.
    pub fn resolve_named_root_protected_roots(&self, known: &Vec<ResolvedRoot>) -> (r: ToolResult<
        OrderedSet<String>,
    >)
        ensures
            match self.named_root_protected_roots {
                None => r is Err && r->Err_0.is_denial(
                    "NamedRoot requires an explicit trusted protected-root inventory"@,
                ),
                Some(roots) => match located_inventory(roots@, known@) {
                    Ok(set) => r matches Ok(s) && s@ == set,
                    Err(reason) => r is Err && r->Err_0.is_denial(reason),
                },
            },
    {
        match &self.named_root_protected_roots {
            None => Err(
                ToolError::denied(
                    "NamedRoot requires an explicit trusted protected-root inventory".to_owned(),
                ),
            ),
            Some(roots) => canonicalize_protected_roots(roots, known),
        }
    }
}

/// Whether the granted entries, in order, cover `path`; none where an entry
/// before the first cover has no location.
pub open spec fn entries_cover(
    granted: Seq<Seq<char>>,
    path: Seq<char>,
    known: Seq<ResolvedRoot>,
) -> Option<bool>
    decreases granted.len(),
{
    if granted.len() == 0 {
        Some(false)
    } else {
        match canonical_of(granted[0], known) {
            None => None,
            Some(c) => if lies_within(path, c) {
                Some(true)
            } else {
                entries_cover(granted.subrange(1, granted.len() as int), path, known)
            },
        }
    }
}

/// Whether the grant itself covers `path`.
pub open spec fn grant_covers(
    scope: ScopeView<Seq<char>>,
    path: Seq<char>,
    known: Seq<ResolvedRoot>,
) -> Option<bool> {
    match scope {
        ScopeView::All => Some(true),
        ScopeView::Only(granted) => entries_cover(in_order::<String>(granted), path, known),
    }
}

/// Whether the grant itself covers `path`, or an error where a granted entry
/// has no location.
fn explicitly_covers(scope: &Scope<String>, path: &str, known: &Vec<ResolvedRoot>) -> (r:
    ToolResult<bool>)
    ensures
        match grant_covers(scope@, path@, known@) {
            Some(b) => r == Ok::<bool, ToolError>(b),
            None => r is Err && r->Err_0.is_denial(unlocated_refusal()),
        },
{
    let set = match scope {
        Scope::All => {
            return Ok(true);
        },
        Scope::Only(set) => set,
    };
    let granted: &Vec<String> = set.as_vec();
    let ghost q = views(granted@);
    assert(q.len() == granted@.len());
    assert(q.subrange(0, q.len() as int) =~= q);
    let mut i: usize = 0;
    while i < granted.len()
        invariant
            i <= granted.len(),
            q == views(granted@),
            grant_covers(scope@, path@, known@) == entries_cover(
                q.subrange(i as int, q.len() as int),
                path@,
                known@,
            ),
        decreases granted.len() - i,
    {
        proof {
            let rest = q.subrange(i as int, q.len() as int);
            assert(rest[0] == granted@[i as int]@);
            assert(rest.subrange(1, rest.len() as int) =~= q.subrange(i + 1, q.len() as int));
        }
        match canonical_path(granted[i].as_str(), known) {
            Err(e) => {
                return Err(e);
            },
            Ok(c) => {
                if path_is_within(path, c.as_str()) {
                    return Ok(true);
                }
            },
        }
        i = i + 1;
    }
    Ok(false)
}

/// What a closure path and a protected root have in common, if anything: the
/// inner of the two.
pub open spec fn overlap(path: Seq<char>, root: Seq<char>) -> Option<Seq<char>> {
    if lies_within(path, root) {
        Some(path)
    } else if lies_within(root, path) {
        Some(root)
    } else {
        None
    }
}

/// The refusal of a closure that reaches a protected root.
pub open spec fn protected_refusal(axis: Seq<char>) -> Seq<char> {
    axis + " runtime closure adds access to a recorded trusted protected root"@
}

/// Why one located closure path is refused, if it is: it overlaps a protected
/// root, in order, where the grant does not itself cover the overlap.
pub open spec fn entry_refusal(
    axis: Seq<char>,
    path: Seq<char>,
    roots: Seq<Seq<char>>,
    granted: ScopeView<Seq<char>>,
    known: Seq<ResolvedRoot>,
) -> Option<Seq<char>>
    decreases roots.len(),
{
    if roots.len() == 0 {
        None
    } else {
        let rest = entry_refusal(
            axis,
            path,
            roots.subrange(1, roots.len() as int),
            granted,
            known,
        );
        match overlap(path, roots[0]) {
            None => rest,
            Some(inner) => match grant_covers(granted, inner, known) {
                None => Some(unlocated_refusal()),
                Some(false) => Some(protected_refusal(axis)),
                Some(true) => rest,
            },
        }
    }
}

/// Why the closure paths of one axis are refused, if they are: the first, in
/// order, that has no location or is refused.
pub open spec fn axis_inventory_refusal(
    axis: Seq<char>,
    entries: Seq<Seq<char>>,
    roots: Seq<Seq<char>>,
    granted: ScopeView<Seq<char>>,
    known: Seq<ResolvedRoot>,
) -> Option<Seq<char>>
    decreases entries.len(),
{
    if entries.len() == 0 {
        None
    } else {
        match canonical_of(entries[0], known) {
            None => Some(unlocated_refusal()),
            Some(path) => match entry_refusal(axis, path, roots, granted, known) {
                Some(reason) => Some(reason),
                None => axis_inventory_refusal(
                    axis,
                    entries.subrange(1, entries.len() as int),
                    roots,
                    granted,
                    known,
                ),
            },
        }
    }
}

/// The scope is bounded by concrete items alone.
pub open spec fn is_concrete(scope: ResolvedView) -> bool {
    scope matches ResolvedView::Bounded { classes, .. } && classes == Set::<Seq<char>>::empty()
}

/// The concrete items of a scope, in order.
pub open spec fn concrete_items(scope: ResolvedView) -> Seq<Seq<char>> {
    in_order::<String>(scope->Bounded_concrete)
}

/// Why a runtime closure is refused against the inventory, if it is.
pub open spec fn inventory_refusal(
    closure: AuthorityView,
    roots: Set<Seq<char>>,
    delegated: CaveatsView,
    known: Seq<ResolvedRoot>,
) -> Option<Seq<char>> {
    let inventory = in_order::<String>(roots);
    if !(is_concrete(closure.fs_read) && is_concrete(closure.fs_write) && is_concrete(closure.exec)
        && is_concrete(closure.net)) {
        Some(
            "runtime closure requires concrete finite paths/hosts; classes cannot prove inventory disjointness"@,
        )
    } else if closure.exec != ResolvedView::empty() || closure.net != ResolvedView::empty() {
        Some("NamedRoot requires empty exec and net runtime closures"@)
    } else {
        match axis_inventory_refusal(
            "fs_read"@,
            concrete_items(closure.fs_read),
            inventory,
            delegated.fs_read,
            known,
        ) {
            Some(reason) => Some(reason),
            None => axis_inventory_refusal(
                "fs_write"@,
                concrete_items(closure.fs_write),
                inventory,
                delegated.fs_write,
                known,
            ),
        }
    }
}

fn concrete_set(scope: &ResolvedScope) -> (r: Option<&OrderedSet<String>>)
    ensures
        r is Some <==> is_concrete(scope@),
        r matches Some(set) ==> scope@->Bounded_concrete == set@,
{
    match scope {
        ResolvedScope::Bounded { concrete, classes } => {
            if classes.is_empty() {
                Some(concrete)
            } else {
                None
            }
        },
        _ => None,
    }
}

fn check_entry(
    axis: &str,
    path: &str,
    roots: &Vec<String>,
    granted: &Scope<String>,
    known: &Vec<ResolvedRoot>,
) -> (r: ToolResult<()>)
    ensures
        match entry_refusal(axis@, path@, views(roots@), granted@, known@) {
            None => r is Ok,
            Some(reason) => r is Err && r->Err_0.is_denial(reason),
        },
{
    let ghost q = views(roots@);
    assert(q.len() == roots@.len());
    assert(q.subrange(0, q.len() as int) =~= q);
    let mut i: usize = 0;
    while i < roots.len()
        invariant
            i <= roots.len(),
            q == views(roots@),
            entry_refusal(axis@, path@, q, granted@, known@) == entry_refusal(
                axis@,
                path@,
                q.subrange(i as int, q.len() as int),
                granted@,
                known@,
            ),
        decreases roots.len() - i,
    {
        proof {
            let rest = q.subrange(i as int, q.len() as int);
            assert(rest[0] == roots@[i as int]@);
            assert(rest.subrange(1, rest.len() as int) =~= q.subrange(i + 1, q.len() as int));
        }
        let root: &str = roots[i].as_str();
        let inner: Option<&str> = if path_is_within(path, root) {
            Some(path)
        } else if path_is_within(root, path) {
            Some(root)
        } else {
            None
        };
        if let Some(shared) = inner {
            match explicitly_covers(granted, shared, known) {
                Err(e) => {
                    return Err(e);
                },
                Ok(covered) => {
                    if !covered {
                        return Err(
                            ToolError::denied(
                                axis.to_owned().concat(
                                    " runtime closure adds access to a recorded trusted protected root",
                                ),
                            ),
                        );
                    }
                },
            }
        }
        i = i + 1;
    }
    Ok(())
}

fn check_axis(
    axis: &str,
    entries: &Vec<String>,
    roots: &Vec<String>,
    granted: &Scope<String>,
    known: &Vec<ResolvedRoot>,
) -> (r: ToolResult<()>)
    ensures
        match axis_inventory_refusal(axis@, views(entries@), views(roots@), granted@, known@) {
            None => r is Ok,
            Some(reason) => r is Err && r->Err_0.is_denial(reason),
        },
{
    let ghost q = views(entries@);
    assert(q.len() == entries@.len());
    assert(q.subrange(0, q.len() as int) =~= q);
    let mut i: usize = 0;
    while i < entries.len()
        invariant
            i <= entries.len(),
            q == views(entries@),
            axis_inventory_refusal(axis@, q, views(roots@), granted@, known@)
                == axis_inventory_refusal(
                axis@,
                q.subrange(i as int, q.len() as int),
                views(roots@),
                granted@,
                known@,
            ),
        decreases entries.len() - i,
    {
        proof {
            let rest = q.subrange(i as int, q.len() as int);
            assert(rest[0] == entries@[i as int]@);
            assert(rest.subrange(1, rest.len() as int) =~= q.subrange(i + 1, q.len() as int));
        }
        match canonical_path(entries[i].as_str(), known) {
            Err(e) => {
                return Err(e);
            },
            Ok(path) => {
                match check_entry(axis, path.as_str(), roots, granted, known) {
                    Err(e) => {
                        return Err(e);
                    },
                    Ok(()) => {},
                }
            },
        }
        i = i + 1;
    }
    Ok(())
}

/// Check the runtime closure of a backend against the inventory: it consists
/// of concrete paths alone, adds no program and no host, and overlaps a
/// protected root only where the grant itself covers the overlap.
pub fn check_closure_inventory(
    projection: &BackendProjection,
    roots: &OrderedSet<String>,
    delegated: &Caveats,
    known: &Vec<ResolvedRoot>,
) -> (r: ToolResult<()>)
    ensures
        match inventory_refusal(projection@.runtime_closure, roots@, delegated@, known@) {
            None => r is Ok,
            Some(reason) => r is Err && r->Err_0.is_denial(reason),
        },
{
    let closure = &projection.runtime_closure;
    let (read, write) = match (
        concrete_set(&closure.fs_read),
        concrete_set(&closure.fs_write),
        concrete_set(&closure.exec),
        concrete_set(&closure.net),
    ) {
        (Some(read), Some(write), Some(_), Some(_)) => (read, write),
        _ => {
            return Err(
                ToolError::denied(
                    "runtime closure requires concrete finite paths/hosts; classes cannot prove inventory disjointness".to_owned(),
                ),
            );
        },
    };
    let nothing: ResolvedScope = ResolvedScope::empty();
    if !closure.exec.same(&nothing) || !closure.net.same(&nothing) {
        return Err(
            ToolError::denied("NamedRoot requires empty exec and net runtime closures".to_owned()),
        );
    }
    match check_axis("fs_read", read.as_vec(), roots.as_vec(), &delegated.fs_read, known) {
        Err(e) => Err(e),
        Ok(()) => check_axis(
            "fs_write",
            write.as_vec(),
            roots.as_vec(),
            &delegated.fs_write,
            known,
        ),
    }
}

/// Nothing that the inventory protects is reached by a closure that passed,
/// unless the grant itself covers it: for every closure path and every
/// protected root that overlap, the overlap is granted.
pub proof fn law_a_passed_closure_adds_no_protected_access(
    axis: Seq<char>,
    entries: Seq<Seq<char>>,
    roots: Seq<Seq<char>>,
    granted: ScopeView<Seq<char>>,
    known: Seq<ResolvedRoot>,
    i: int,
    j: int,
)
    requires
        axis_inventory_refusal(axis, entries, roots, granted, known) is None,
        0 <= i < entries.len(),
        0 <= j < roots.len(),
    ensures
        canonical_of(entries[i], known) is Some,
        overlap(canonical_of(entries[i], known)->0, roots[j]) matches Some(inner) ==> grant_covers(
            granted,
            inner,
            known,
        ) == Some(true),
    decreases entries.len(),
{
    if i == 0 {
        lemma_entry_passed(axis, canonical_of(entries[0], known)->0, roots, granted, known, j);
    } else {
        law_a_passed_closure_adds_no_protected_access(
            axis,
            entries.subrange(1, entries.len() as int),
            roots,
            granted,
            known,
            i - 1,
            j,
        );
    }
}

proof fn lemma_entry_passed(
    axis: Seq<char>,
    path: Seq<char>,
    roots: Seq<Seq<char>>,
    granted: ScopeView<Seq<char>>,
    known: Seq<ResolvedRoot>,
    j: int,
)
    requires
        entry_refusal(axis, path, roots, granted, known) is None,
        0 <= j < roots.len(),
    ensures
        overlap(path, roots[j]) matches Some(inner) ==> grant_covers(granted, inner, known) == Some(
            true,
        ),
    decreases roots.len(),
{
    if j > 0 {
        lemma_entry_passed(
            axis,
            path,
            roots.subrange(1, roots.len() as int),
            granted,
            known,
            j - 1,
        );
    }
}

} // verus!
