//! When a fence is admitted, said over the paths, the grant and what the backend
//! installs.

use vstd::prelude::*;

use crate::admitted::named_root::{content_address, validate_named_root, AdmittedFenceBody};
use crate::admitted::protected_roots::{
    axis_inventory_refusal, canonical_of, canonical_path, canonicalize_protected_roots,
    check_closure_inventory, entries_cover, entry_refusal, grant_covers, location, overlap,
    PrefixState, settle_location,
};
use crate::admitted::{
    closure_is_harness_disjoint, entry_reaches_harness_private, mechanism_caveats_for,
    private_markers, reaches_private, AdmittedFence, BackendProjection, RuntimeClosure,
};
use crate::caveats::{Caveats, ScopeView};
use crate::context::ResolvedRoot;
use crate::error::ToolResult;
use crate::paths::{components, lies_within};
use crate::provenance::{covered, ResolvedAuthority, ResolvedView};
use crate::report::{
    unenforceable_axis, ConfinementMechanism, EnforcementFloor, UnenforceableAxis,
};
use crate::sandbox::{ExecBoundary, SandboxKind};
use crate::sets::{in_order, law_a_set_in_order_is_that_set, OrderedSet};
use crate::text::laws::law_trimming_takes_the_leading_character_only;
use crate::text::{occurs_at, occurs_in, trim_end, trim_start, trimmed};

verus! {

/// The text is the name of a private store.
pub open spec fn is_marker(m: Seq<char>) -> bool {
    m == ".newt"@ || m == ".ssh"@ || m == ".gnupg"@ || m == ".aws"@ || m == ".config/gh"@
}

/// The name of a private store stands in the text between separators or ends.
pub open spec fn stands_in(a: Seq<char>, m: Seq<char>, b: Seq<char>, entry: Seq<char>) -> bool {
    entry == a + m + b && (a.len() == 0 || a.last() == '/') && (b.len() == 0 || b[0] == '/')
}

/// The path passes through a private store.
pub open spec fn passes_private(entry: Seq<char>) -> bool {
    exists|a: Seq<char>, m: Seq<char>, b: Seq<char>|
        is_marker(m) && #[trigger] stands_in(a, m, b, entry)
}

proof fn lemma_trim_end_takes(s: Seq<char>, c: char) -> (j: int)
    ensures
        0 <= j <= s.len(),
        trim_end(s, c) == s.subrange(0, j),
        forall|k: int| j <= k < s.len() ==> #[trigger] s[k] == c,
    decreases s.len(),
{
    if s.len() > 0 && s.last() == c {
        let front = s.drop_last();
        let j = lemma_trim_end_takes(front, c);
        assert(front.subrange(0, j) =~= s.subrange(0, j));
        assert forall|k: int| j <= k < s.len() implies #[trigger] s[k] == c by {
            if k < front.len() {
                assert(front[k] == s[k]);
            }
        }
        j
    } else {
        assert(s.subrange(0, s.len() as int) =~= s);
        s.len() as int
    }
}

proof fn lemma_trimmed(s: Seq<char>, c: char) -> (ends: (int, int))
    ensures
        0 <= ends.0 <= ends.1 <= s.len(),
        trimmed(s, c) == s.subrange(ends.0, ends.1),
        forall|k: int| 0 <= k < ends.0 || ends.1 <= k < s.len() ==> #[trigger] s[k] == c,
{
    law_trimming_takes_the_leading_character_only(s, c);
    let t = trim_start(s, c);
    let i = choose|i: int|
        0 <= i <= s.len() && t == #[trigger] s.subrange(i, s.len() as int) && (forall|k: int|
            0 <= k < i ==> #[trigger] s[k] == c);
    let j = lemma_trim_end_takes(t, c);
    assert(t.subrange(0, j) =~= s.subrange(i, i + j));
    assert forall|k: int| 0 <= k < i || i + j <= k < s.len() implies #[trigger] s[k] == c by {
        if k >= i + j {
            assert(t[k - i] == s[k]);
        }
    }
    (i, i + j)
}

proof fn lemma_marker(m: Seq<char>)
    requires
        is_marker(m),
    ensures
        m.len() > 0 && m[0] != '/' && m.last() != '/',
        exists|i: int| 0 <= i < private_markers().len() && #[trigger] private_markers()[i] == m,
{
    reveal_strlit(".newt");
    reveal_strlit(".ssh");
    reveal_strlit(".gnupg");
    reveal_strlit(".aws");
    reveal_strlit(".config/gh");
    let all = private_markers();
    assert(all[0] == ".newt"@ && all[1] == ".ssh"@ && all[2] == ".gnupg"@ && all[3] == ".aws"@
        && all[4] == ".config/gh"@);
}

proof fn lemma_reaches(entry: Seq<char>)
    requires
        reaches_private(entry),
    ensures
        passes_private(entry),
{
    reveal_strlit("/");
    assert("/"@ =~= seq!['/']);
    let (i, j) = lemma_trimmed(entry, '/');
    let t = trimmed(entry, '/');
    let padded = "/"@ + t + "/"@;
    let n = choose|n: int|
        0 <= n < private_markers().len() && occurs_in(
            "/"@ + #[trigger] private_markers()[n] + "/"@,
            padded,
        );
    let m = private_markers()[n];
    assert(is_marker(m));
    let needle = "/"@ + m + "/"@;
    let p = choose|p: int| #[trigger] occurs_at(needle, padded, p);
    let len = m.len() as int;
    assert(needle.len() == len + 2);
    assert forall|k: int| 0 <= k < len implies entry[i + p + k] == m[k] by {
        assert(padded.subrange(p, p + needle.len())[k + 1] == padded[p + k + 1]);
        assert(needle[k + 1] == m[k]);
        assert(padded[p + k + 1] == t[p + k]);
    }
    let a = entry.subrange(0, i + p);
    let b = entry.subrange(i + p + len, entry.len() as int);
    assert(entry =~= a + m + b);
    if a.len() > 0 {
        if p > 0 {
            assert(padded.subrange(p, p + needle.len())[0] == padded[p]);
            assert(needle[0] == '/');
            assert(padded[p] == t[p - 1]);
        } else {
            assert(entry[i - 1] == '/');
        }
    }
    if b.len() > 0 {
        if p + len < t.len() {
            assert(padded.subrange(p, p + needle.len())[len + 1] == padded[p + len + 1]);
            assert(needle[len + 1] == '/');
            assert(padded[p + len + 1] == t[p + len]);
        } else {
            assert(entry[j] == '/');
        }
    }
    assert(stands_in(a, m, b, entry));
}

#[verifier::rlimit(40)]
proof fn lemma_passes(entry: Seq<char>)
    requires
        passes_private(entry),
    ensures
        reaches_private(entry),
{
    reveal_strlit("/");
    assert("/"@ =~= seq!['/']);
    let (i, j) = lemma_trimmed(entry, '/');
    let t = trimmed(entry, '/');
    let padded = "/"@ + t + "/"@;
    let (a, m, b) = choose|a: Seq<char>, m: Seq<char>, b: Seq<char>|
        is_marker(m) && #[trigger] stands_in(a, m, b, entry);
    lemma_marker(m);
    let len = m.len() as int;
    assert(entry[a.len() as int] == m[0]);
    assert(entry[a.len() + len - 1] == m[len - 1]);
    assert(i <= a.len());
    assert(a.len() + len <= j);
    let p = a.len() - i;
    let needle = "/"@ + m + "/"@;
    assert(padded.subrange(p, p + needle.len()) =~= needle) by {
        assert forall|k: int| 0 <= k < needle.len() implies padded[p + k] == needle[k] by {
            if k == 0 {
                if p > 0 {
                    assert(padded[p] == t[p - 1]);
                    assert(t[p - 1] == entry[a.len() - 1]);
                    assert(a[a.len() - 1] == '/');
                }
            } else if k <= len {
                assert(padded[p + k] == t[p + k - 1]);
                assert(t[p + k - 1] == entry[a.len() + k - 1]);
            } else {
                if p + len < t.len() {
                    assert(padded[p + k] == t[p + len]);
                    assert(t[p + len] == entry[a.len() + len]);
                    assert(b[0] == '/');
                }
            }
        }
    }
    assert(occurs_at(needle, padded, p));
    let n = choose|n: int|
        0 <= n < private_markers().len() && #[trigger] private_markers()[n] == m;
    assert(occurs_in("/"@ + private_markers()[n] + "/"@, padded));
}

proof fn lemma_private(entry: Seq<char>)
    ensures
        reaches_private(entry) <==> passes_private(entry),
{
    if reaches_private(entry) {
        lemma_reaches(entry);
    }
    if passes_private(entry) {
        lemma_passes(entry);
    }
}

/// A path reaches a private store exactly where the name of one stands in it
/// between separators or ends; a longer name that merely holds it does not
/// count. A declared program is refused exactly there.
pub proof fn law_a_private_store_is_reached_by_its_name(
    entry: &str,
    r: bool,
    closure: RuntimeClosure,
    program: String,
    wider: ToolResult<RuntimeClosure>,
)
    requires
        call_ensures(entry_reaches_harness_private, (entry,), r),
        call_ensures(RuntimeClosure::with_exec, (closure, program), wider),
    ensures
        r <==> passes_private(entry@),
        wider is Ok <==> !passes_private(program@),
        wider is Ok ==> forall|p: Seq<char>| #[trigger]
            wider->Ok_0@.contains(p) <==> closure@.contains(p) || p == program@,
{
    lemma_private(entry@);
    lemma_private(program@);
}

/// What the scope lists stays away from the private stores, and it lists all
/// that it permits.
pub open spec fn keeps_away(scope: ResolvedView) -> bool {
    scope is Bounded && forall|e: Seq<char>| #[trigger]
        scope->concrete.contains(e) ==> !passes_private(e)
}

/// A closure is disjoint from the private stores exactly where on reads, writes
/// and programs it is bounded and lists none of their paths.
pub proof fn law_a_closure_keeps_away_from_private_stores(closure: &ResolvedAuthority, r: bool)
    requires
        call_ensures(closure_is_harness_disjoint, (closure,), r),
    ensures
        r <==> keeps_away(closure.fs_read@) && keeps_away(closure.fs_write@) && keeps_away(
            closure.exec@,
        ),
{
    assert forall|e: Seq<char>| #[trigger] reaches_private(e) <==> passes_private(e) by {
        lemma_private(e);
    }
    lemma_keeps_away(closure.fs_read@);
    lemma_keeps_away(closure.fs_write@);
    lemma_keeps_away(closure.exec@);
}

proof fn lemma_keeps_away(scope: ResolvedView)
    ensures
        keeps_away(scope) <==> crate::admitted::disjoint_scope(scope),
{
    if scope is Bounded {
        if keeps_away(scope) {
            assert forall|e: Seq<char>| #[trigger]
                scope->concrete.contains(e) implies !reaches_private(e) by {
                lemma_private(e);
            }
        }
        if crate::admitted::disjoint_scope(scope) {
            assert forall|e: Seq<char>| #[trigger]
                scope->concrete.contains(e) implies !passes_private(e) by {
                lemma_private(e);
            }
        }
    }
}

/// A fence is admitted exactly where what the harness adds keeps away from the
/// private stores, what the backend installs is covered on every axis by the
/// grant and what the harness adds, and every restricted axis is strong enough.
/// It then applies the grant with the declared programs added, on the mechanism
/// that was asked for.
pub proof fn law_a_fence_is_admitted_within_its_bounds(
    delegated: &Caveats,
    closure: RuntimeClosure,
    mechanism: ConfinementMechanism,
    floor: EnforcementFloor,
    projection: &BackendProjection,
    r: ToolResult<AdmittedFence>,
    unmet: Option<UnenforceableAxis>,
    decision: crate::provenance::AdmissionDecision,
    program: Seq<char>,
)
    requires
        call_ensures(
            AdmittedFence::from_projection,
            (delegated, closure, mechanism, floor, projection),
            r,
        ),
        call_ensures(unenforceable_axis, (delegated, mechanism, floor), unmet),
        call_ensures(
            crate::provenance::decide_admission,
            (&projection.resolved, delegated, &projection.runtime_closure),
            decision,
        ),
    ensures
        r is Ok <==> keeps_away(projection.runtime_closure.fs_read@) && keeps_away(
            projection.runtime_closure.fs_write@,
        ) && keeps_away(projection.runtime_closure.exec@) && covered(
            projection.resolved.fs_read@,
            delegated@.fs_read,
            projection.runtime_closure.fs_read@,
        ) && covered(
            projection.resolved.fs_write@,
            delegated@.fs_write,
            projection.runtime_closure.fs_write@,
        ) && covered(
            projection.resolved.exec@,
            delegated@.exec,
            projection.runtime_closure.exec@,
        ) && covered(
            projection.resolved.net@,
            delegated@.net,
            projection.runtime_closure.net@,
        ) && unmet is None,
        r is Err ==> r->Err_0 is Denied,
        r is Ok ==> {
            let fence = r->Ok_0;
            &&& fence.spec_mechanism() == mechanism
            &&& fence.spec_named_root() is None
            &&& fence.spec_caveats().fs_read == delegated@.fs_read
            &&& fence.spec_caveats().fs_write == delegated@.fs_write
            &&& fence.spec_caveats().net == delegated@.net
            &&& fence.spec_caveats().exec is All <==> delegated@.exec is All
            &&& delegated@.exec is Only ==> (fence.spec_caveats().exec->Only_0.contains(program)
                <==> delegated@.exec->Only_0.contains(program) || closure@.contains(program))
        },
{
    lemma_keeps_away(projection.runtime_closure.fs_read@);
    lemma_keeps_away(projection.runtime_closure.fs_write@);
    lemma_keeps_away(projection.runtime_closure.exec@);
    crate::provenance::law_a_fence_is_admitted_where_the_grant_covers_it(
        &projection.resolved,
        delegated,
        &projection.runtime_closure,
        decision,
    );
}

/// What a mechanism applies is the grant, and on a restricted exec axis also the
/// declared programs.
pub proof fn law_a_mechanism_applies_the_grant_and_the_declared_programs(
    delegated: &Caveats,
    closure: &RuntimeClosure,
    r: Caveats,
    program: Seq<char>,
)
    requires
        call_ensures(mechanism_caveats_for, (delegated, closure), r),
    ensures
        r@.fs_read == delegated@.fs_read && r@.fs_write == delegated@.fs_write && r@.net
            == delegated@.net && r@.max_calls == delegated@.max_calls && r@.valid_for_generation
            == delegated@.valid_for_generation,
        r@.exec is All <==> delegated@.exec is All,
        delegated@.exec is Only ==> (r@.exec->Only_0.contains(program)
            <==> delegated@.exec->Only_0.contains(program) || closure@.contains(program)),
{
}

/// The first answer on the path gives it a location.
pub open spec fn is_located(
    known: Seq<ResolvedRoot>,
    path: Seq<char>,
    i: int,
    c: Seq<char>,
) -> bool {
    &&& 0 <= i < known.len() && known[i].entry@ == path
    &&& forall|k: int| 0 <= k < i ==> (#[trigger] known[k]).entry@ != path
    &&& known[i].canonical is Some && known[i].canonical->0@ == c
}

proof fn lemma_location(known: Seq<ResolvedRoot>, path: Seq<char>)
    ensures
        location(known, path) is Some ==> exists|i: int| #[trigger]
            is_located(known, path, i, location(known, path)->0),
        forall|i: int, c: Seq<char>| #[trigger]
            is_located(known, path, i, c) ==> location(known, path) == Some(c),
    decreases known.len(),
{
    if known.len() > 0 {
        if known[0].entry@ == path {
            if known[0].canonical is Some {
                let c = known[0].canonical->0@;
                assert(location(known, path) == Some(c));
                assert(is_located(known, path, 0, c));
                assert(is_located(known, path, 0, location(known, path)->0));
            }
            assert forall|i: int, c: Seq<char>| #[trigger] is_located(
                known,
                path,
                i,
                c,
            ) implies location(known, path) == Some(c) by {
                if i > 0 {
                    assert(known[0].entry@ != path);
                }
            }
        } else {
            let rest = known.subrange(1, known.len() as int);
            lemma_location(rest, path);
            if location(known, path) is Some {
                let i = choose|i: int| #[trigger]
                    is_located(rest, path, i, location(rest, path)->0);
                assert(rest[i] == known[i + 1]);
                assert forall|k: int| 0 <= k < i + 1 implies (#[trigger] known[k]).entry@
                    != path by {
                    if k > 0 {
                        assert(rest[k - 1] == known[k]);
                    }
                }
                assert(is_located(known, path, i + 1, location(known, path)->0));
            }
            assert forall|i: int, c: Seq<char>| #[trigger] is_located(
                known,
                path,
                i,
                c,
            ) implies location(known, path) == Some(c) by {
                assert(i > 0);
                assert(rest[i - 1] == known[i]);
                assert forall|k: int| 0 <= k < i - 1 implies (#[trigger] rest[k]).entry@
                    != path by {
                    assert(rest[k] == known[k + 1]);
                }
                assert(is_located(rest, path, i - 1, c));
            }
        }
    }
}

/// A path has a location exactly where it begins at the root, has no `..` among
/// its components, and the first answer of the filesystem on it is one; that
/// answer is its location. A location stands only where no prefix is a dangling
/// link or cannot be read.
pub proof fn law_a_path_is_located_by_the_first_answer(
    path: &str,
    known: &Vec<ResolvedRoot>,
    r: ToolResult<String>,
    prefixes: &Vec<PrefixState>,
    walked: Option<String>,
    settled: Option<String>,
)
    requires
        call_ensures(canonical_path, (path, known), r),
        call_ensures(settle_location, (prefixes, walked), settled),
    ensures
        r is Ok <==> path@.len() > 0 && path@[0] == '/' && !components(path@).contains(
            seq!['.', '.'],
        ) && exists|i: int, c: Seq<char>| #[trigger] is_located(known@, path@, i, c),
        r is Ok ==> exists|i: int| #[trigger] is_located(known@, path@, i, r->Ok_0@),
        r is Err ==> r->Err_0 is Denied,
        settled == walked || settled is None,
        settled is None && walked is Some <==> walked is Some && exists|i: int|
            0 <= i < prefixes@.len() && (#[trigger] prefixes@[i] == PrefixState::DanglingLink
                || prefixes@[i] == PrefixState::Unreadable),
{
    reveal_strlit("..");
    assert(".."@ =~= seq!['.', '.']);
    lemma_location(known@, path@);
}

/// An inventory is located exactly where it names something and each of its
/// paths has a location; it is then the set of these locations.
pub proof fn law_an_inventory_is_the_locations_of_its_roots(
    roots: &OrderedSet<String>,
    known: &Vec<ResolvedRoot>,
    r: ToolResult<OrderedSet<String>>,
)
    requires
        call_ensures(canonicalize_protected_roots, (roots, known), r),
    ensures
        r is Ok <==> (exists|x: Seq<char>| roots@.contains(x)) && forall|x: Seq<char>| #[trigger]
            roots@.contains(x) ==> canonical_of(x, known@) is Some,
        r is Ok ==> forall|c: Seq<char>| #[trigger]
            r->Ok_0@.contains(c) <==> exists|x: Seq<char>| #[trigger]
                roots@.contains(x) && canonical_of(x, known@) == Some(c),
        r is Err ==> r->Err_0 is Denied,
{
    if forall|x: Seq<char>| !roots@.contains(x) {
        assert(roots@ =~= Set::empty());
    }
}

/// The components of one path are the first of the other's.
pub open spec fn first_of(base: Seq<char>, path: Seq<char>) -> bool {
    components(base).len() <= components(path).len() && forall|k: int|
        0 <= k < components(base).len() ==> #[trigger] components(base)[k] == components(path)[k]
}

proof fn lemma_first_of(base: Seq<char>, path: Seq<char>)
    ensures
        first_of(base, path) <==> lies_within(path, base),
{
    let (b, c) = (components(base), components(path));
    if first_of(base, path) {
        assert(b =~= c.subrange(0, b.len() as int));
    }
    if lies_within(path, base) {
        assert forall|k: int| 0 <= k < b.len() implies #[trigger] b[k] == c[k] by {
            assert(c.subrange(0, b.len() as int)[k] == c[k]);
        }
    }
}

/// The grant itself covers the path: it is unrestricted, or one of its entries
/// has a location that the path lies in.
pub open spec fn granted_itself(
    granted: ScopeView<Seq<char>>,
    path: Seq<char>,
    known: Seq<ResolvedRoot>,
) -> bool {
    granted is All || exists|g: Seq<char>| #[trigger]
        granted->Only_0.contains(g) && canonical_of(g, known) is Some && first_of(
            canonical_of(g, known)->0,
            path,
        )
}

proof fn lemma_entries_cover(granted: Seq<Seq<char>>, path: Seq<char>, known: Seq<ResolvedRoot>)
    ensures
        entries_cover(granted, path, known) == Some(true) ==> exists|i: int|
            0 <= i < granted.len() && canonical_of(#[trigger] granted[i], known) is Some && first_of(
                canonical_of(granted[i], known)->0,
                path,
            ),
    decreases granted.len(),
{
    if granted.len() > 0 && entries_cover(granted, path, known) == Some(true) {
        let c = canonical_of(granted[0], known)->0;
        lemma_first_of(c, path);
        if lies_within(path, c) {
            assert(canonical_of(granted[0], known) is Some);
        } else {
            let rest = granted.subrange(1, granted.len() as int);
            lemma_entries_cover(rest, path, known);
            let i = choose|i: int|
                0 <= i < rest.len() && canonical_of(#[trigger] rest[i], known) is Some && first_of(
                    canonical_of(rest[i], known)->0,
                    path,
                );
            assert(granted[i + 1] == rest[i]);
        }
    }
}

proof fn lemma_granted_itself(
    granted: ScopeView<Seq<char>>,
    path: Seq<char>,
    known: Seq<ResolvedRoot>,
)
    requires
        grant_covers(granted, path, known) == Some(true),
        granted is Only ==> granted->Only_0.finite(),
    ensures
        granted_itself(granted, path, known),
{
    if granted is Only {
        let q = in_order::<String>(granted->Only_0);
        law_a_set_in_order_is_that_set::<String>(granted->Only_0);
        lemma_entries_cover(q, path, known);
        let i = choose|i: int|
            0 <= i < q.len() && canonical_of(#[trigger] q[i], known) is Some && first_of(
                canonical_of(q[i], known)->0,
                path,
            );
        assert(q.contains(q[i]));
        assert(granted->Only_0.contains(q[i]));
    }
}

/// What one axis of a closure adds touches nothing protected that the grant does
/// not itself cover: each of its paths has a location, and where that and a
/// protected root lie one in the other, the grant covers the inner of the two.
pub open spec fn adds_nothing_protected(
    items: Set<Seq<char>>,
    roots: Set<Seq<char>>,
    granted: ScopeView<Seq<char>>,
    known: Seq<ResolvedRoot>,
) -> bool {
    forall|e: Seq<char>| #[trigger]
        items.contains(e) ==> canonical_of(e, known) is Some && forall|root: Seq<char>| #[trigger]
            roots.contains(root) ==> (first_of(root, canonical_of(e, known)->0) ==> granted_itself(
                granted,
                canonical_of(e, known)->0,
                known,
            )) && (first_of(canonical_of(e, known)->0, root) && !first_of(
                root,
                canonical_of(e, known)->0,
            ) ==> granted_itself(granted, root, known))
}

proof fn lemma_adds_nothing(
    axis: Seq<char>,
    items: Set<Seq<char>>,
    roots: Set<Seq<char>>,
    granted: ScopeView<Seq<char>>,
    known: Seq<ResolvedRoot>,
)
    requires
        items.finite(),
        roots.finite(),
        granted is Only ==> granted->Only_0.finite(),
        axis_inventory_refusal(
            axis,
            in_order::<String>(items),
            in_order::<String>(roots),
            granted,
            known,
        ) is None,
    ensures
        adds_nothing_protected(items, roots, granted, known),
{
    let es = in_order::<String>(items);
    let rs = in_order::<String>(roots);
    law_a_set_in_order_is_that_set::<String>(items);
    law_a_set_in_order_is_that_set::<String>(roots);
    assert forall|e: Seq<char>| #[trigger] items.contains(e) implies canonical_of(e, known) is Some
        && forall|root: Seq<char>| #[trigger]
        roots.contains(root) ==> (first_of(root, canonical_of(e, known)->0) ==> granted_itself(
            granted,
            canonical_of(e, known)->0,
            known,
        )) && (first_of(canonical_of(e, known)->0, root) && !first_of(
            root,
            canonical_of(e, known)->0,
        ) ==> granted_itself(granted, root, known)) by {
        assert(es.contains(e));
        let i = choose|i: int| 0 <= i < es.len() && es[i] == e;
        if rs.len() > 0 {
            crate::admitted::protected_roots::law_a_passed_closure_adds_no_protected_access(
                axis,
                es,
                rs,
                granted,
                known,
                i,
                0,
            );
        } else {
            lemma_located_entry(axis, es, rs, granted, known, i);
        }
        let c = canonical_of(e, known)->0;
        assert forall|root: Seq<char>| #[trigger] roots.contains(root) implies (first_of(root, c)
            ==> granted_itself(granted, c, known)) && (first_of(c, root) && !first_of(root, c)
            ==> granted_itself(granted, root, known)) by {
            assert(rs.contains(root));
            let j = choose|j: int| 0 <= j < rs.len() && rs[j] == root;
            crate::admitted::protected_roots::law_a_passed_closure_adds_no_protected_access(
                axis,
                es,
                rs,
                granted,
                known,
                i,
                j,
            );
            lemma_first_of(root, c);
            lemma_first_of(c, root);
            if first_of(root, c) {
                lemma_granted_itself(granted, c, known);
            } else if first_of(c, root) {
                lemma_granted_itself(granted, root, known);
            }
        }
    }
}

proof fn lemma_located_entry(
    axis: Seq<char>,
    entries: Seq<Seq<char>>,
    roots: Seq<Seq<char>>,
    granted: ScopeView<Seq<char>>,
    known: Seq<ResolvedRoot>,
    i: int,
)
    requires
        axis_inventory_refusal(axis, entries, roots, granted, known) is None,
        0 <= i < entries.len(),
    ensures
        canonical_of(entries[i], known) is Some,
    decreases entries.len(),
{
    if i > 0 {
        let rest = entries.subrange(1, entries.len() as int);
        assert(rest[i - 1] == entries[i]);
        lemma_located_entry(axis, rest, roots, granted, known, i - 1);
    }
}

/// A path and a protected root have nothing in common that the grant does not
/// itself cover.
spec fn is_free(
    path: Seq<char>,
    root: Seq<char>,
    granted: ScopeView<Seq<char>>,
    known: Seq<ResolvedRoot>,
) -> bool {
    overlap(path, root) is None || grant_covers(granted, overlap(path, root)->0, known) == Some(
        true,
    )
}

/// Every entry of the grant has a location.
pub open spec fn all_have_locations(
    granted: ScopeView<Seq<char>>,
    known: Seq<ResolvedRoot>,
) -> bool {
    granted is Only ==> forall|g: Seq<char>| #[trigger]
        granted->Only_0.contains(g) ==> canonical_of(g, known) is Some
}

proof fn lemma_covering_entry(
    granted: Seq<Seq<char>>,
    path: Seq<char>,
    known: Seq<ResolvedRoot>,
    i: int,
)
    requires
        0 <= i < granted.len(),
        forall|k: int| 0 <= k < granted.len() ==> canonical_of(#[trigger] granted[k], known) is Some,
        first_of(canonical_of(granted[i], known)->0, path),
    ensures
        entries_cover(granted, path, known) == Some(true),
    decreases granted.len(),
{
    assert(canonical_of(granted[0], known) is Some);
    lemma_first_of(canonical_of(granted[i], known)->0, path);
    if i > 0 {
        let rest = granted.subrange(1, granted.len() as int);
        assert(rest[i - 1] == granted[i]);
        assert forall|k: int| 0 <= k < rest.len() implies canonical_of(
            #[trigger] rest[k],
            known,
        ) is Some by {
            assert(rest[k] == granted[k + 1]);
        }
        lemma_covering_entry(rest, path, known, i - 1);
    }
}

proof fn lemma_covered_itself(
    granted: ScopeView<Seq<char>>,
    path: Seq<char>,
    known: Seq<ResolvedRoot>,
)
    requires
        granted_itself(granted, path, known),
        all_have_locations(granted, known),
        granted is Only ==> granted->Only_0.finite(),
    ensures
        grant_covers(granted, path, known) == Some(true),
{
    if granted is Only {
        let q = in_order::<String>(granted->Only_0);
        law_a_set_in_order_is_that_set::<String>(granted->Only_0);
        let g = choose|g: Seq<char>| #[trigger]
            granted->Only_0.contains(g) && canonical_of(g, known) is Some && first_of(
                canonical_of(g, known)->0,
                path,
            );
        assert(q.contains(g));
        let i = choose|i: int| 0 <= i < q.len() && q[i] == g;
        assert forall|k: int| 0 <= k < q.len() implies canonical_of(
            #[trigger] q[k],
            known,
        ) is Some by {
            assert(q.contains(q[k]));
            assert(granted->Only_0.contains(q[k]));
        }
        lemma_covering_entry(q, path, known, i);
    }
}

proof fn lemma_no_overlap(
    axis: Seq<char>,
    entries: Seq<Seq<char>>,
    roots: Seq<Seq<char>>,
    granted: ScopeView<Seq<char>>,
    known: Seq<ResolvedRoot>,
)
    requires
        forall|i: int| 0 <= i < entries.len() ==> canonical_of(#[trigger] entries[i], known) is Some,
        forall|i: int, j: int|
            0 <= i < entries.len() && 0 <= j < roots.len() ==> is_free(
                canonical_of(#[trigger] entries[i], known)->0,
                #[trigger] roots[j],
                granted,
                known,
            ),
    ensures
        axis_inventory_refusal(axis, entries, roots, granted, known) is None,
    decreases entries.len(),
{
    if entries.len() > 0 {
        let rest = entries.subrange(1, entries.len() as int);
        assert(canonical_of(entries[0], known) is Some);
        lemma_entry_free(axis, canonical_of(entries[0], known)->0, roots, granted, known);
        assert forall|i: int| 0 <= i < rest.len() implies canonical_of(
            #[trigger] rest[i],
            known,
        ) is Some by {
            assert(rest[i] == entries[i + 1]);
        }
        assert forall|i: int, j: int| 0 <= i < rest.len() && 0 <= j < roots.len() implies is_free(
            canonical_of(#[trigger] rest[i], known)->0,
            #[trigger] roots[j],
            granted,
            known,
        ) by {
            assert(rest[i] == entries[i + 1]);
        }
        lemma_no_overlap(axis, rest, roots, granted, known);
    }
}

proof fn lemma_entry_free(
    axis: Seq<char>,
    path: Seq<char>,
    roots: Seq<Seq<char>>,
    granted: ScopeView<Seq<char>>,
    known: Seq<ResolvedRoot>,
)
    requires
        forall|j: int| 0 <= j < roots.len() ==> is_free(path, #[trigger] roots[j], granted, known),
    ensures
        entry_refusal(axis, path, roots, granted, known) is None,
    decreases roots.len(),
{
    if roots.len() > 0 {
        let rest = roots.subrange(1, roots.len() as int);
        assert(is_free(path, roots[0], granted, known));
        assert forall|j: int| 0 <= j < rest.len() implies is_free(
            path,
            #[trigger] rest[j],
            granted,
            known,
        ) by {
            assert(rest[j] == roots[j + 1]);
        }
        lemma_entry_free(axis, path, rest, granted, known);
    }
}

/// Each of the paths has a location that neither lies in a protected root nor
/// holds one.
pub open spec fn apart_from(
    items: Set<Seq<char>>,
    roots: Set<Seq<char>>,
    known: Seq<ResolvedRoot>,
) -> bool {
    forall|e: Seq<char>| #[trigger]
        items.contains(e) ==> canonical_of(e, known) is Some && forall|root: Seq<char>| #[trigger]
            roots.contains(root) ==> !first_of(root, canonical_of(e, known)->0) && !first_of(
                canonical_of(e, known)->0,
                root,
            )
}

proof fn lemma_apart(
    axis: Seq<char>,
    items: Set<Seq<char>>,
    roots: Set<Seq<char>>,
    granted: ScopeView<Seq<char>>,
    known: Seq<ResolvedRoot>,
)
    requires
        items.finite(),
        roots.finite(),
        granted is Only ==> granted->Only_0.finite(),
        apart_from(items, roots, known) || (adds_nothing_protected(items, roots, granted, known)
            && all_have_locations(granted, known)),
    ensures
        axis_inventory_refusal(
            axis,
            in_order::<String>(items),
            in_order::<String>(roots),
            granted,
            known,
        ) is None,
{
    let es = in_order::<String>(items);
    let rs = in_order::<String>(roots);
    law_a_set_in_order_is_that_set::<String>(items);
    law_a_set_in_order_is_that_set::<String>(roots);
    assert forall|i: int| 0 <= i < es.len() implies canonical_of(#[trigger] es[i], known) is Some by {
        assert(es.contains(es[i]));
        assert(items.contains(es[i]));
    }
    assert forall|i: int, j: int| 0 <= i < es.len() && 0 <= j < rs.len() implies is_free(
        canonical_of(#[trigger] es[i], known)->0,
        #[trigger] rs[j],
        granted,
        known,
    ) by {
        assert(es.contains(es[i]) && rs.contains(rs[j]));
        assert(items.contains(es[i]) && roots.contains(rs[j]));
        let c = canonical_of(es[i], known)->0;
        lemma_first_of(rs[j], c);
        lemma_first_of(c, rs[j]);
        if !apart_from(items, roots, known) {
            if first_of(rs[j], c) {
                lemma_covered_itself(granted, c, known);
            } else if first_of(c, rs[j]) {
                lemma_covered_itself(granted, rs[j], known);
            }
        }
    }
    lemma_no_overlap(axis, es, rs, granted, known);
}

/// The scope lists all that it permits, and no class.
pub open spec fn lists_all(scope: ResolvedView) -> bool {
    scope is Bounded && forall|x: Seq<char>| !#[trigger] scope->classes.contains(x)
}

/// The scope lists nothing.
pub open spec fn lists_nothing(scope: ResolvedView) -> bool {
    forall|x: Seq<char>| !#[trigger] scope->concrete.contains(x)
}

proof fn lemma_lists(scope: ResolvedView)
    ensures
        lists_all(scope) <==> crate::admitted::protected_roots::is_concrete(scope),
        lists_all(scope) && lists_nothing(scope) <==> scope == ResolvedView::empty(),
{
    let none = Set::<Seq<char>>::empty();
    if lists_all(scope) {
        assert(scope->classes =~= none);
        if lists_nothing(scope) {
            assert(scope->concrete =~= none);
            assert(scope =~= ResolvedView::empty());
        }
    }
}

/// A closure passes the inventory only where it lists all that it adds, adds no
/// program and no host, and adds no access to a protected root that the grant
/// does not itself cover. One whose paths all have locations apart from every
/// protected root passes, and where the entries of the grant have locations, so
/// does one that touches only what the grant covers.
pub proof fn law_a_closure_adds_no_protected_access(
    projection: &BackendProjection,
    roots: &OrderedSet<String>,
    delegated: &Caveats,
    known: &Vec<ResolvedRoot>,
    r: ToolResult<()>,
)
    requires
        call_ensures(check_closure_inventory, (projection, roots, delegated, known), r),
    ensures
        r is Ok ==> {
            let closure = projection.runtime_closure;
            &&& lists_all(closure.fs_read@) && lists_all(closure.fs_write@)
            &&& lists_all(closure.exec@) && lists_nothing(closure.exec@)
            &&& lists_all(closure.net@) && lists_nothing(closure.net@)
            &&& adds_nothing_protected(
                closure.fs_read@->concrete,
                roots@,
                delegated@.fs_read,
                known@,
            )
            &&& adds_nothing_protected(
                closure.fs_write@->concrete,
                roots@,
                delegated@.fs_write,
                known@,
            )
        },
        ({
            let closure = projection.runtime_closure;
            lists_all(closure.fs_read@) && lists_all(closure.fs_write@) && lists_all(closure.exec@)
                && lists_nothing(closure.exec@) && lists_all(closure.net@) && lists_nothing(
                closure.net@,
            ) && apart_from(closure.fs_read@->concrete, roots@, known@) && apart_from(
                closure.fs_write@->concrete,
                roots@,
                known@,
            ) ==> r is Ok
        }),
        ({
            let closure = projection.runtime_closure;
            lists_all(closure.fs_read@) && lists_all(closure.fs_write@) && lists_all(closure.exec@)
                && lists_nothing(closure.exec@) && lists_all(closure.net@) && lists_nothing(
                closure.net@,
            ) && adds_nothing_protected(
                closure.fs_read@->concrete,
                roots@,
                delegated@.fs_read,
                known@,
            ) && adds_nothing_protected(
                closure.fs_write@->concrete,
                roots@,
                delegated@.fs_write,
                known@,
            ) && all_have_locations(delegated@.fs_read, known@) && all_have_locations(
                delegated@.fs_write,
                known@,
            ) ==> r is Ok
        }),
        r is Err ==> r->Err_0 is Denied,
{
    let closure = projection.runtime_closure;
    roots.lemma_finite();
    if let crate::caveats::Scope::Only(set) = delegated.fs_read {
        set.lemma_finite();
    }
    if let crate::caveats::Scope::Only(set) = delegated.fs_write {
        set.lemma_finite();
    }
    if let crate::provenance::ResolvedScope::Bounded { concrete, .. } = closure.fs_read {
        concrete.lemma_finite();
    }
    if let crate::provenance::ResolvedScope::Bounded { concrete, .. } = closure.fs_write {
        concrete.lemma_finite();
    }
    lemma_lists(closure.fs_read@);
    lemma_lists(closure.fs_write@);
    lemma_lists(closure.exec@);
    lemma_lists(closure.net@);
    if r is Ok {
        lemma_adds_nothing(
            "fs_read"@,
            closure.fs_read@->concrete,
            roots@,
            delegated@.fs_read,
            known@,
        );
        lemma_adds_nothing(
            "fs_write"@,
            closure.fs_write@->concrete,
            roots@,
            delegated@.fs_write,
            known@,
        );
    }
    let (reads, writes) = (closure.fs_read@->concrete, closure.fs_write@->concrete);
    let (may_read, may_write) = (delegated@.fs_read, delegated@.fs_write);
    let bounded = lists_all(closure.fs_read@) && lists_all(closure.fs_write@);
    if bounded && (apart_from(reads, roots@, known@) || (adds_nothing_protected(
        reads,
        roots@,
        may_read,
        known@,
    ) && all_have_locations(may_read, known@))) {
        lemma_apart("fs_read"@, reads, roots@, may_read, known@);
    }
    if bounded && (apart_from(writes, roots@, known@) || (adds_nothing_protected(
        writes,
        roots@,
        may_write,
        known@,
    ) && all_have_locations(may_write, known@))) {
        lemma_apart("fs_write"@, writes, roots@, may_write, known@);
    }
}

/// A named root is admitted exactly where it is an absolute path without `..`
/// that the restricted exec axis lists as it is, the mechanism is Landlock with
/// the boundary of a named root, the closure passes the inventory, programs are
/// disclosed as unbounded, reads, writes and the network are covered by the
/// grant and the closure, and every restricted axis meets both the floor that
/// was asked for and that of a confined executor.
pub proof fn law_a_named_root_is_exact(
    delegated: &Caveats,
    root: &str,
    roots: &OrderedSet<String>,
    known: &Vec<ResolvedRoot>,
    mechanism: ConfinementMechanism,
    projection: &BackendProjection,
    floor: EnforcementFloor,
    r: ToolResult<()>,
    inventory: ToolResult<()>,
    confined: EnforcementFloor,
    joined: EnforcementFloor,
    unmet: Option<UnenforceableAxis>,
)
    requires
        call_ensures(
            validate_named_root,
            (delegated, root, roots, known, mechanism, projection, floor),
            r,
        ),
        call_ensures(check_closure_inventory, (projection, roots, delegated, known), inventory),
        call_ensures(EnforcementFloor::confined, (), confined),
        call_ensures(EnforcementFloor::join, (floor, confined), joined),
        call_ensures(unenforceable_axis, (delegated, mechanism, joined), unmet),
    ensures
        r is Ok <==> {
            &&& root@.len() > 0 && root@[0] == '/'
            &&& !components(root@).contains(seq!['.', '.'])
            &&& delegated@.exec is Only && delegated@.exec->Only_0.contains(root@)
            &&& mechanism.spec_exec_boundary() == ExecBoundary::NamedRoot
            &&& mechanism.spec_kind() == SandboxKind::Landlock
            &&& inventory is Ok
            &&& projection.resolved.exec@ is Unbounded
            &&& covered(
                projection.resolved.fs_read@,
                delegated@.fs_read,
                projection.runtime_closure.fs_read@,
            )
            &&& covered(
                projection.resolved.fs_write@,
                delegated@.fs_write,
                projection.runtime_closure.fs_write@,
            )
            &&& covered(
                projection.resolved.net@,
                delegated@.net,
                projection.runtime_closure.net@,
            )
            &&& unmet is None
        },
        r is Err ==> r->Err_0 is Denied,
{
    reveal_strlit("..");
    assert(".."@ =~= seq!['.', '.']);
    crate::provenance::lemma_covered(
        projection.resolved.fs_read@,
        delegated@.fs_read,
        projection.runtime_closure.fs_read@,
    );
    crate::provenance::lemma_covered(
        projection.resolved.fs_write@,
        delegated@.fs_write,
        projection.runtime_closure.fs_write@,
    );
    crate::provenance::lemma_covered(
        projection.resolved.net@,
        delegated@.net,
        projection.runtime_closure.net@,
    );
}

/// A body is evidence for an invocation exactly where it names its root, holds
/// its authority and applies just that, was checked against its located
/// inventory, and would be admitted under the floor of a confined executor.
pub proof fn law_evidence_is_for_its_own_invocation(
    body: &AdmittedFenceBody,
    expected_root: &str,
    effective: &Caveats,
    expected: &OrderedSet<String>,
    known: &Vec<ResolvedRoot>,
    r: ToolResult<()>,
    inventory: ToolResult<OrderedSet<String>>,
    root: &str,
    confined: EnforcementFloor,
    valid: ToolResult<()>,
)
    requires
        call_ensures(AdmittedFenceBody::verify, (body, expected_root, effective, expected, known), r),
        call_ensures(canonicalize_protected_roots, (expected, known), inventory),
        root@ == body.root@,
        call_ensures(EnforcementFloor::confined, (), confined),
        call_ensures(
            validate_named_root,
            (
                effective,
                root,
                &body.protected_roots,
                known,
                body.mechanism,
                &body.projection,
                confined,
            ),
            valid,
        ),
    ensures
        r is Ok <==> {
            &&& body.root@ == expected_root@
            &&& body.effective@ == effective@
            &&& body.mechanism_caveats@ == effective@
            &&& inventory is Ok && inventory->Ok_0@ == body.protected_roots@
            &&& valid is Ok
        },
        r is Err ==> r->Err_0 is Denied,
{
}

/// A named root is sealed exactly where its inventory has locations, it is
/// valid against them, and what is admitted has an encoding; the seal then holds
/// the grant, the root, the mechanism, what the backend installs and the located
/// inventory, and its identity is the content address of the encoding of just
/// that.
pub proof fn law_a_seal_holds_what_was_admitted<
    F: FnOnce(&AdmittedFenceBody) -> Result<Vec<u8>, String>,
>(
    delegated: &Caveats,
    root: &str,
    roots: &OrderedSet<String>,
    known: &Vec<ResolvedRoot>,
    mechanism: ConfinementMechanism,
    floor: EnforcementFloor,
    projection: BackendProjection,
    encode: F,
    r: ToolResult<AdmittedFence>,
    inventory: ToolResult<OrderedSet<String>>,
    located: &OrderedSet<String>,
    valid: ToolResult<()>,
)
    requires
        call_ensures(
            AdmittedFence::named_root_from_projection::<F>,
            (delegated, root, roots, known, mechanism, floor, projection, encode),
            r,
        ),
        call_ensures(canonicalize_protected_roots, (roots, known), inventory),
        inventory is Ok ==> located@ == inventory->Ok_0@,
        call_ensures(
            validate_named_root,
            (delegated, root, located, known, mechanism, &projection, floor),
            valid,
        ),
    ensures
        r is Ok ==> inventory is Ok && valid is Ok,
        inventory is Ok && valid is Ok ==> exists|
            body: &AdmittedFenceBody,
            canonical: Result<Vec<u8>, String>,
        | #[trigger]
            encode.ensures((body,), canonical) && body.effective@ == delegated@
                && body.mechanism_caveats@ == delegated@ && body.root@ == root@ && body.mechanism
                == mechanism && body.projection@ == projection@ && body.protected_roots@
                == located@ && (r is Ok <==> canonical is Ok) && (r is Ok ==> {
                let seal = r->Ok_0.spec_named_root();
                &&& r->Ok_0.spec_caveats() == delegated@
                &&& r->Ok_0.spec_mechanism() == mechanism
                &&& seal is Some && seal->0.body@ == body@
                &&& seal->0.fence_id.cid@ == content_address(canonical->Ok_0@)
            }),
        r is Err ==> r->Err_0 is Denied,
{
}

/// A launch is accepted only under a seal, with the sealed root and authority,
/// the sealed inventory in its locations, and an encoding of all that it applies
/// whose content address is the sealed identity.
pub proof fn law_a_launch_applies_what_was_sealed<
    F: FnOnce(&AdmittedFenceBody) -> Result<Vec<u8>, String>,
>(
    fence: &AdmittedFence,
    applied: &Caveats,
    root: &str,
    roots: &OrderedSet<String>,
    known: &Vec<ResolvedRoot>,
    mechanism: ConfinementMechanism,
    projection: BackendProjection,
    encode: F,
    r: ToolResult<()>,
    inventory: ToolResult<OrderedSet<String>>,
)
    requires
        call_ensures(
            AdmittedFence::verify_named_root_applied::<F>,
            (fence, applied, root, roots, known, mechanism, projection, encode),
            r,
        ),
        call_ensures(canonicalize_protected_roots, (roots, known), inventory),
    ensures
        r is Ok ==> {
            let seal = fence.spec_named_root();
            &&& seal is Some
            &&& root@ == seal->0.body.root@
            &&& applied@ == seal->0.body.effective@
            &&& inventory is Ok
            &&& exists|body: &AdmittedFenceBody, canonical: Result<Vec<u8>, String>| #[trigger]
                encode.ensures((body,), canonical) && body.root@ == root@
                    && body.mechanism_caveats@ == applied@ && body.mechanism == mechanism
                    && body.projection@ == projection@ && body.protected_roots@
                    == inventory->Ok_0@ && canonical is Ok && content_address(canonical->Ok_0@)
                    == seal->0.fence_id.cid@
        },
        r is Err ==> r->Err_0 is Denied,
{
}

/// Admission asks the backend what it installs for the grant with the declared
/// programs added, and judges the answer: the fence is the one that the same
/// answer, handed in, would give.
pub proof fn law_admission_judges_what_the_backend_installs<
    F: FnOnce(&Caveats) -> BackendProjection,
>(
    delegated: &Caveats,
    closure: RuntimeClosure,
    mechanism: ConfinementMechanism,
    floor: EnforcementFloor,
    project: F,
    r: ToolResult<AdmittedFence>,
    applied: Caveats,
    projection: &BackendProjection,
    judged: ToolResult<AdmittedFence>,
)
    requires
        call_ensures(
            AdmittedFence::try_admit::<F>,
            (delegated, closure, mechanism, floor, project),
            r,
        ),
        call_ensures(mechanism_caveats_for, (delegated, &closure), applied),
        forall|c: &Caveats, p: BackendProjection| #[trigger]
            project.ensures((c,), p) && c@ == applied@ ==> p@ == projection@,
        call_ensures(
            AdmittedFence::from_projection,
            (delegated, closure, mechanism, floor, projection),
            judged,
        ),
    ensures
        r is Ok <==> judged is Ok,
        r is Ok ==> r->Ok_0.spec_mechanism() == judged->Ok_0.spec_mechanism()
            && r->Ok_0.spec_caveats() == judged->Ok_0.spec_caveats() && r->Ok_0.spec_named_root()
            == judged->Ok_0.spec_named_root(),
        r is Err ==> r->Err_0 is Denied,
{
}

/// Where the operator named no protected roots there is no inventory; otherwise
/// it is the located one.
pub proof fn law_protected_roots_are_those_that_were_named(
    config: &crate::config::SandboxPolicy,
    known: &Vec<ResolvedRoot>,
    r: ToolResult<OrderedSet<String>>,
    roots: &OrderedSet<String>,
    located: ToolResult<OrderedSet<String>>,
)
    requires
        call_ensures(
            crate::config::SandboxPolicy::resolve_named_root_protected_roots,
            (config, known),
            r,
        ),
        config.named_root_protected_roots is Some ==> roots@
            == config.named_root_protected_roots->0@,
        call_ensures(canonicalize_protected_roots, (roots, known), located),
    ensures
        config.named_root_protected_roots is None ==> r is Err && r->Err_0 is Denied,
        config.named_root_protected_roots is Some ==> (r is Ok <==> located is Ok),
        config.named_root_protected_roots is Some && r is Ok ==> r->Ok_0@ == located->Ok_0@,
        r is Err ==> r->Err_0 is Denied,
{
}

/// A named root is admitted as a seal of what the backend answers for the grant:
/// only where its inventory has locations and it is valid against them for that
/// answer; the seal holds the grant, the root, the mechanism and the inventory.
pub proof fn law_a_named_root_is_admitted_by_its_seal<
    P: FnOnce(&Caveats) -> BackendProjection,
    F: FnOnce(&AdmittedFenceBody) -> Result<Vec<u8>, String>,
>(
    delegated: &Caveats,
    root: &str,
    roots: &OrderedSet<String>,
    known: &Vec<ResolvedRoot>,
    mechanism: ConfinementMechanism,
    floor: EnforcementFloor,
    project: P,
    encode: F,
    r: ToolResult<AdmittedFence>,
    inventory: ToolResult<OrderedSet<String>>,
    located: &OrderedSet<String>,
    projection: &BackendProjection,
    valid: ToolResult<()>,
)
    requires
        call_ensures(
            AdmittedFence::admit_named_root::<P, F>,
            (delegated, root, roots, known, mechanism, floor, project, encode),
            r,
        ),
        call_ensures(canonicalize_protected_roots, (roots, known), inventory),
        inventory is Ok ==> located@ == inventory->Ok_0@,
        forall|p: BackendProjection| #[trigger]
            project.ensures((delegated,), p) ==> p@ == projection@,
        call_ensures(
            validate_named_root,
            (delegated, root, located, known, mechanism, projection, floor),
            valid,
        ),
    ensures
        r is Ok ==> inventory is Ok && valid is Ok,
        inventory is Ok && valid is Ok ==> exists|
            body: &AdmittedFenceBody,
            canonical: Result<Vec<u8>, String>,
        | #[trigger]
            encode.ensures((body,), canonical) && body.effective@ == delegated@
                && body.mechanism_caveats@ == delegated@ && body.root@ == root@ && body.mechanism
                == mechanism && body.projection@ == projection@ && body.protected_roots@
                == located@ && (r is Ok <==> canonical is Ok) && (r is Ok ==> {
                let seal = r->Ok_0.spec_named_root();
                &&& r->Ok_0.spec_caveats() == delegated@
                &&& r->Ok_0.spec_mechanism() == mechanism
                &&& seal is Some && seal->0.body@ == body@
                &&& seal->0.fence_id.cid@ == content_address(canonical->Ok_0@)
            }),
        r is Err ==> r->Err_0 is Denied,
{
}

} // verus!
