//! What a native fence resolves to, how that stands to what was granted, and
//! the admission decision over both.

use vstd::prelude::*;

use crate::caveats::{Caveats, CaveatsView, Scope, ScopeView};
use crate::report::ConfinedAxis;
use crate::sets::{members, OrderedSet};

verus! {

/// What a fence permits on one axis.
#[verifier::ext_equal]
pub ghost enum ResolvedView {
    /// Exactly these items, and these named classes of items.
    Bounded { concrete: Set<Seq<char>>, classes: Set<Seq<char>> },
    /// Everything.
    Unbounded,
    /// Nobody can say.
    Unknown,
}

impl ResolvedView {
    /// Permits nothing.
    pub open spec fn empty() -> Self {
        ResolvedView::Bounded { concrete: Set::empty(), classes: Set::empty() }
    }

    /// What a granted scope permits.
    pub open spec fn of_scope(scope: ScopeView<Seq<char>>) -> Self {
        match scope {
            ScopeView::All => ResolvedView::Unbounded,
            ScopeView::Only(s) => ResolvedView::Bounded { concrete: s, classes: Set::empty() },
        }
    }

    /// What both permit together: unknown where either is unknown, otherwise
    /// unbounded where either is unbounded.
    pub open spec fn union(self, other: Self) -> Self {
        match (self, other) {
            (ResolvedView::Unknown, _) => ResolvedView::Unknown,
            (_, ResolvedView::Unknown) => ResolvedView::Unknown,
            (ResolvedView::Unbounded, _) => ResolvedView::Unbounded,
            (_, ResolvedView::Unbounded) => ResolvedView::Unbounded,
            (
                ResolvedView::Bounded { concrete: c1, classes: l1 },
                ResolvedView::Bounded { concrete: c2, classes: l2 },
            ) => ResolvedView::Bounded { concrete: c1.union(c2), classes: l1.union(l2) },
        }
    }

    /// Everything that this permits, `other` permits too, and both are known.
    pub open spec fn within(self, other: Self) -> bool {
        match (self, other) {
            (ResolvedView::Unknown, _) => false,
            (_, ResolvedView::Unknown) => false,
            (_, ResolvedView::Unbounded) => true,
            (ResolvedView::Unbounded, _) => false,
            (
                ResolvedView::Bounded { concrete: c1, classes: l1 },
                ResolvedView::Bounded { concrete: c2, classes: l2 },
            ) => c1.subset_of(c2) && l1.subset_of(l2),
        }
    }
}

/// What a native fence permits on one axis.
#[derive(Debug, PartialEq, Eq)]
pub enum ResolvedScope {
    /// Exactly these concrete items, and these named classes that cannot be
    /// listed item by item.
    Bounded {
        /// The items.
        concrete: OrderedSet<String>,
        /// The names of the classes.
        classes: OrderedSet<String>,
    },
    /// No restriction.
    Unbounded,
    /// What the fence permits could not be resolved.
    Unknown,
}

impl View for ResolvedScope {
    type V = ResolvedView;

    open spec fn view(&self) -> ResolvedView {
        match self {
            ResolvedScope::Bounded { concrete, classes } => ResolvedView::Bounded {
                concrete: concrete@,
                classes: classes@,
            },
            ResolvedScope::Unbounded => ResolvedView::Unbounded,
            ResolvedScope::Unknown => ResolvedView::Unknown,
        }
    }
}

impl Clone for ResolvedScope {
    fn clone(&self) -> (r: Self)
        ensures
            r@ == self@,
    {
        match self {
            ResolvedScope::Bounded { concrete, classes } => ResolvedScope::Bounded {
                concrete: concrete.clone(),
                classes: classes.clone(),
            },
            ResolvedScope::Unbounded => ResolvedScope::Unbounded,
            ResolvedScope::Unknown => ResolvedScope::Unknown,
        }
    }
}

/// How a resolved scope stands to the bound that it has to stay within.
#[derive(Debug, Clone, Copy, PartialEq, Eq, Structural)]
pub enum ScopeRelation {
    /// Both permit the same.
    Equal,
    /// The scope permits less than the bound.
    Subset,
    /// The scope permits more than the bound: it widens authority.
    Superset,
    /// Neither contains the other.
    Incomparable,
    /// Not decidable.
    Unknown,
}

impl ScopeRelation {
    /// The text that [`ScopeRelation::name`] gives.
    pub open spec fn name_text(self) -> Seq<char> {
        match self {
            ScopeRelation::Equal => "Equal"@,
            ScopeRelation::Subset => "Subset"@,
            ScopeRelation::Superset => "Superset"@,
            ScopeRelation::Incomparable => "Incomparable"@,
            ScopeRelation::Unknown => "Unknown"@,
        }
    }

    /// The name of the relation, as it stands in a refusal.
    pub fn name(&self) -> (r: &'static str)
        ensures
            r@ == self.name_text(),
    {
        match self {
            ScopeRelation::Equal => "Equal",
            ScopeRelation::Subset => "Subset",
            ScopeRelation::Superset => "Superset",
            ScopeRelation::Incomparable => "Incomparable",
            ScopeRelation::Unknown => "Unknown",
        }
    }

    /// Whether the scope stays within its bound.
    pub fn stays_within(&self) -> (r: bool)
        ensures
            r == (*self == ScopeRelation::Equal || *self == ScopeRelation::Subset),
    {
        match self {
            ScopeRelation::Equal | ScopeRelation::Subset => true,
            _ => false,
        }
    }
}

/// The relation of a resolved scope to its bound: by containment in both
/// directions, and unknown where either is unknown.
pub open spec fn relation(resolved: ResolvedView, bound: ResolvedView) -> ScopeRelation {
    if resolved is Unknown || bound is Unknown {
        ScopeRelation::Unknown
    } else if resolved == bound {
        ScopeRelation::Equal
    } else if resolved.within(bound) {
        ScopeRelation::Subset
    } else if bound.within(resolved) {
        ScopeRelation::Superset
    } else {
        ScopeRelation::Incomparable
    }
}

/// What `agent_mesh_protocol::relate` returns: unknown where an operand is
/// unknown, and otherwise the relation by containment of both the concrete
/// items and the classes, with everything contained in an unbounded scope.
#[verifier::external_body]
fn mesh_relate(resolved: &ResolvedScope, bound: &ResolvedScope) -> (r: ScopeRelation)
    ensures
        r == relation(resolved@, bound@),
{
    let to = |s: &ResolvedScope| match s {
        ResolvedScope::Bounded { concrete, classes } => agent_mesh_protocol::ResolvedScope::Bounded {
            concrete: concrete.items.iter().cloned().collect(),
            classes: classes.items.iter().cloned().collect(),
        },
        ResolvedScope::Unbounded => agent_mesh_protocol::ResolvedScope::Unbounded,
        ResolvedScope::Unknown => agent_mesh_protocol::ResolvedScope::Unknown,
    };
    match agent_mesh_protocol::relate(&to(resolved), &to(bound)) {
        agent_mesh_protocol::ScopeRelation::Equal => ScopeRelation::Equal,
        agent_mesh_protocol::ScopeRelation::Subset => ScopeRelation::Subset,
        agent_mesh_protocol::ScopeRelation::Superset => ScopeRelation::Superset,
        agent_mesh_protocol::ScopeRelation::Incomparable => ScopeRelation::Incomparable,
        agent_mesh_protocol::ScopeRelation::Unknown => ScopeRelation::Unknown,
    }
}

/// Relate a resolved scope to the bound that it has to stay within.
pub fn relate(resolved: &ResolvedScope, bound: &ResolvedScope) -> (r: ScopeRelation)
    ensures
        r == relation(resolved@, bound@),
{
    mesh_relate(resolved, bound)
}

/// What `agent_mesh_protocol::ResolvedScope::union` returns: the items and
/// classes of its `Bounded`, or its `Unbounded` or `Unknown`. Unknown where
/// either operand is unknown, otherwise unbounded where either is unbounded,
/// otherwise the items of both and the classes of both.
#[verifier::external_body]
fn mesh_union(a: &ResolvedScope, b: &ResolvedScope) -> (r: Result<
    (Vec<String>, Vec<String>),
    ResolvedScope,
>)
    ensures
        a@.union(b@) == (match r {
            Ok((c, l)) => ResolvedView::Bounded { concrete: members(c@), classes: members(l@) },
            Err(s) => s@,
        }),
{
    let to = |s: &ResolvedScope| match s {
        ResolvedScope::Bounded { concrete, classes } => agent_mesh_protocol::ResolvedScope::Bounded {
            concrete: concrete.items.iter().cloned().collect(),
            classes: classes.items.iter().cloned().collect(),
        },
        ResolvedScope::Unbounded => agent_mesh_protocol::ResolvedScope::Unbounded,
        ResolvedScope::Unknown => agent_mesh_protocol::ResolvedScope::Unknown,
    };
    match to(a).union(&to(b)) {
        agent_mesh_protocol::ResolvedScope::Bounded { concrete, classes } => {
            Ok((concrete.into_iter().collect(), classes.into_iter().collect()))
        },
        agent_mesh_protocol::ResolvedScope::Unbounded => Err(ResolvedScope::Unbounded),
        agent_mesh_protocol::ResolvedScope::Unknown => Err(ResolvedScope::Unknown),
    }
}

impl ResolvedScope {
    /// Permits nothing.
    pub fn empty() -> (r: Self)
        ensures
            r@ == ResolvedView::empty(),
    {
        ResolvedScope::Bounded { concrete: OrderedSet::new(), classes: OrderedSet::new() }
    }

    /// Permits exactly the given items.
    pub fn concrete(items: Vec<String>) -> (r: Self)
        ensures
            r@ == (ResolvedView::Bounded { concrete: members(items@), classes: Set::empty() }),
    {
        ResolvedScope::Bounded { concrete: OrderedSet::from_vec(items), classes: OrderedSet::new() }
    }

    /// Permits exactly one named class of items.
    pub fn class(name: String) -> (r: Self)
        ensures
            r@ == (ResolvedView::Bounded {
                concrete: Set::empty(),
                classes: Set::empty().insert(name@),
            }),
    {
        let mut classes: OrderedSet<String> = OrderedSet::new();
        classes.insert(name);
        ResolvedScope::Bounded { concrete: OrderedSet::new(), classes }
    }

    /// What a granted scope permits.
    pub fn from_scope(scope: &Scope<String>) -> (r: Self)
        ensures
            r@ == ResolvedView::of_scope(scope@),
    {
        match scope {
            Scope::All => ResolvedScope::Unbounded,
            Scope::Only(items) => ResolvedScope::Bounded {
                concrete: items.clone(),
                classes: OrderedSet::new(),
            },
        }
    }

    /// What both permit together.
    pub fn union(&self, other: &Self) -> (r: Self)
        ensures
            r@ == self@.union(other@),
    {
        match mesh_union(self, other) {
            Ok((concrete, classes)) => ResolvedScope::Bounded {
                concrete: OrderedSet::from_vec(concrete),
                classes: OrderedSet::from_vec(classes),
            },
            Err(s) => s,
        }
    }

    /// Whether both permit the same.
    pub fn same(&self, other: &Self) -> (r: bool)
        ensures
            r == (self@ == other@),
    {
        match (self, other) {
            (
                ResolvedScope::Bounded { concrete: c1, classes: l1 },
                ResolvedScope::Bounded { concrete: c2, classes: l2 },
            ) => c1.same(c2) && l1.same(l2),
            (ResolvedScope::Unbounded, ResolvedScope::Unbounded) => true,
            (ResolvedScope::Unknown, ResolvedScope::Unknown) => true,
            _ => false,
        }
    }
}

/// The model of [`ResolvedAuthority`].
#[verifier::ext_equal]
pub ghost struct AuthorityView {
    pub fs_read: ResolvedView,
    pub fs_write: ResolvedView,
    pub exec exec: ResolvedView,
    pub net: ResolvedView,
}

impl AuthorityView {
    /// No authority on any axis.
    pub open spec fn empty() -> Self {
        AuthorityView {
            fs_read: ResolvedView::empty(),
            fs_write: ResolvedView::empty(),
            exec: ResolvedView::empty(),
            net: ResolvedView::empty(),
        }
    }

    /// What a grant alone authorizes.
    pub open spec fn of_caveats(c: CaveatsView) -> Self {
        AuthorityView {
            fs_read: ResolvedView::of_scope(c.fs_read),
            fs_write: ResolvedView::of_scope(c.fs_write),
            exec: ResolvedView::of_scope(c.exec),
            net: ResolvedView::of_scope(c.net),
        }
    }

    /// What the authority permits on one axis.
    pub open spec fn on(self, axis: ConfinedAxis) -> ResolvedView {
        match axis {
            ConfinedAxis::FsRead => self.fs_read,
            ConfinedAxis::FsWrite => self.fs_write,
            ConfinedAxis::Exec => self.exec,
            ConfinedAxis::Net => self.net,
        }
    }
}

/// What a fence permits on the four axes that an operating system can confine.
#[derive(Debug, PartialEq, Eq)]
pub struct ResolvedAuthority {
    /// Filesystem reads.
    pub fs_read: ResolvedScope,
    /// Filesystem writes.
    pub fs_write: ResolvedScope,
    /// Which programs run.
    pub exec exec: ResolvedScope,
    /// The network.
    pub net: ResolvedScope,
}

impl View for ResolvedAuthority {
    type V = AuthorityView;

    open spec fn view(&self) -> AuthorityView {
        AuthorityView {
            fs_read: self.fs_read@,
            fs_write: self.fs_write@,
            exec: self.exec@,
            net: self.net@,
        }
    }
}

impl Clone for ResolvedAuthority {
    fn clone(&self) -> (r: Self)
        ensures
            r@ == self@,
    {
        ResolvedAuthority {
            fs_read: self.fs_read.clone(),
            fs_write: self.fs_write.clone(),
            exec: self.exec.clone(),
            net: self.net.clone(),
        }
    }
}

impl ResolvedAuthority {
    /// What a grant alone authorizes.
    pub fn from_delegated(caveats: &Caveats) -> (r: Self)
        ensures
            r@ == AuthorityView::of_caveats(caveats@),
    {
        ResolvedAuthority {
            fs_read: ResolvedScope::from_scope(&caveats.fs_read),
            fs_write: ResolvedScope::from_scope(&caveats.fs_write),
            exec: ResolvedScope::from_scope(&caveats.exec),
            net: ResolvedScope::from_scope(&caveats.net),
        }
    }

    /// Whether both permit the same on every axis.
    pub fn same(&self, other: &Self) -> (r: bool)
        ensures
            r == (self@ == other@),
    {
        self.fs_read.same(&other.fs_read) && self.fs_write.same(&other.fs_write)
            && self.exec.same(&other.exec) && self.net.same(&other.net)
    }
}

/// No authority on any axis: the closure of a harness that adds nothing.
pub fn empty_closure() -> (r: ResolvedAuthority)
    ensures
        r@ == AuthorityView::empty(),
{
    ResolvedAuthority {
        fs_read: ResolvedScope::empty(),
        fs_write: ResolvedScope::empty(),
        exec: ResolvedScope::empty(),
        net: ResolvedScope::empty(),
    }
}

/// Why an admission is refused: the axis, and how the fence stands to its
/// bound there.
#[derive(Debug, Clone, Copy, PartialEq, Eq, Structural)]
pub struct AdmissionReject {
    /// The axis.
    pub axis: ConfinedAxis,
    /// The relation of the fence to its bound.
    pub relation: ScopeRelation,
}

/// The admission decision.
#[derive(Debug, Clone, Copy, PartialEq, Eq, Structural)]
pub enum AdmissionDecision {
    /// The fence stays within its bound on every axis.
    Admit,
    /// It does not.
    Reject(AdmissionReject),
}

/// The relation on one axis of what a fence permits to what the grant and the
/// closure together authorize.
pub open spec fn axis_relation(
    resolved: AuthorityView,
    delegated: CaveatsView,
    closure: AuthorityView,
    axis: ConfinedAxis,
) -> ScopeRelation {
    relation(
        resolved.on(axis),
        AuthorityView::of_caveats(delegated).on(axis).union(closure.on(axis)),
    )
}

/// The relation does not exceed the bound.
pub open spec fn within_bound(relation: ScopeRelation) -> bool {
    relation == ScopeRelation::Equal || relation == ScopeRelation::Subset
}

/// The first axis, in the order fs_read, fs_write, exec, net, on which a fence
/// does not stay within what the grant and the closure authorize.
pub open spec fn admission(
    resolved: AuthorityView,
    delegated: CaveatsView,
    closure: AuthorityView,
) -> AdmissionDecision {
    let read = axis_relation(resolved, delegated, closure, ConfinedAxis::FsRead);
    let write = axis_relation(resolved, delegated, closure, ConfinedAxis::FsWrite);
    let run = axis_relation(resolved, delegated, closure, ConfinedAxis::Exec);
    let net = axis_relation(resolved, delegated, closure, ConfinedAxis::Net);
    if !within_bound(read) {
        AdmissionDecision::Reject(AdmissionReject { axis: ConfinedAxis::FsRead, relation: read })
    } else if !within_bound(write) {
        AdmissionDecision::Reject(AdmissionReject { axis: ConfinedAxis::FsWrite, relation: write })
    } else if !within_bound(run) {
        AdmissionDecision::Reject(AdmissionReject { axis: ConfinedAxis::Exec, relation: run })
    } else if !within_bound(net) {
        AdmissionDecision::Reject(AdmissionReject { axis: ConfinedAxis::Net, relation: net })
    } else {
        AdmissionDecision::Admit
    }
}

/// Decide whether a fence that permits `resolved` stays, on every axis, within
/// what `delegated` and `closure` together authorize.
pub fn decide_admission(
    resolved: &ResolvedAuthority,
    delegated: &Caveats,
    closure: &ResolvedAuthority,
) -> (r: AdmissionDecision)
    ensures
        r == admission(resolved@, delegated@, closure@),
{
    let bound: ResolvedAuthority = ResolvedAuthority::from_delegated(delegated);
    let read: ScopeRelation = relate(&resolved.fs_read, &bound.fs_read.union(&closure.fs_read));
    if !read.stays_within() {
        return AdmissionDecision::Reject(
            AdmissionReject { axis: ConfinedAxis::FsRead, relation: read },
        );
    }
    let write: ScopeRelation = relate(&resolved.fs_write, &bound.fs_write.union(&closure.fs_write));
    if !write.stays_within() {
        return AdmissionDecision::Reject(
            AdmissionReject { axis: ConfinedAxis::FsWrite, relation: write },
        );
    }
    let run: ScopeRelation = relate(&resolved.exec, &bound.exec.union(&closure.exec));
    if !run.stays_within() {
        return AdmissionDecision::Reject(
            AdmissionReject { axis: ConfinedAxis::Exec, relation: run },
        );
    }
    let net: ScopeRelation = relate(&resolved.net, &bound.net.union(&closure.net));
    if !net.stays_within() {
        return AdmissionDecision::Reject(
            AdmissionReject { axis: ConfinedAxis::Net, relation: net },
        );
    }
    AdmissionDecision::Admit
}

/// The union depends on neither order nor grouping, a scope with itself is
/// that scope, and the empty scope changes nothing.
pub proof fn law_union_is_a_semilattice(a: ResolvedView, b: ResolvedView, c: ResolvedView)
    ensures
        a.union(b) == b.union(a),
        a.union(b).union(c) == a.union(b.union(c)),
        a.union(a) == a,
        a.union(ResolvedView::empty()) == a,
        ResolvedView::empty().union(a) == a,
{
    assert(a.union(b) =~= b.union(a));
    assert(a.union(b).union(c) =~= a.union(b.union(c)));
    assert(a.union(a) =~= a);
    assert(a.union(ResolvedView::empty()) =~= a);
    assert(ResolvedView::empty().union(a) =~= a);
}

/// An unknown scope makes every union with it unknown; among known scopes an
/// unbounded one makes every union with it unbounded.
pub proof fn law_unknown_propagates_and_unbounded_absorbs(a: ResolvedView)
    ensures
        a.union(ResolvedView::Unknown) is Unknown,
        ResolvedView::Unknown.union(a) is Unknown,
        !(a is Unknown) ==> a.union(ResolvedView::Unbounded) is Unbounded,
        !(a is Unknown) ==> ResolvedView::Unbounded.union(a) is Unbounded,
{
}

/// A relation involving an unknown scope is unknown, and no other is.
pub proof fn law_relation_is_unknown_iff_an_operand_is(a: ResolvedView, b: ResolvedView)
    ensures
        relation(a, b) == ScopeRelation::Unknown <==> a is Unknown || b is Unknown,
{
}

/// Equal and subset together mean that the scope stays within its bound; a
/// superset is a widening, and turning the comparison round gives a subset.
pub proof fn law_relation_is_containment(a: ResolvedView, b: ResolvedView)
    ensures
        within_bound(relation(a, b)) <==> a.within(b),
        relation(a, b) == ScopeRelation::Superset <==> relation(b, a) == ScopeRelation::Subset,
        relation(a, b) == ScopeRelation::Equal <==> a == b && !(a is Unknown),
{
    if a.within(b) && b.within(a) {
        assert(a =~= b);
    }
}

/// A fence is admitted exactly when, on every axis, it stays within what the
/// grant and the closure together authorize; so an unknown axis is refused
/// whatever was granted, and an unbounded axis is admitted only where the
/// grant or the closure is itself unbounded.
pub proof fn law_admitted_iff_within_the_bound_on_every_axis(
    resolved: AuthorityView,
    delegated: CaveatsView,
    closure: AuthorityView,
)
    ensures
        admission(resolved, delegated, closure) == AdmissionDecision::Admit <==> forall|
            axis: ConfinedAxis,
        | #[trigger]
            resolved.on(axis).within(
                AuthorityView::of_caveats(delegated).on(axis).union(closure.on(axis)),
            ),
{
    assert forall|axis: ConfinedAxis|
        within_bound(axis_relation(resolved, delegated, closure, axis)) <==> #[trigger]
        resolved.on(axis).within(
            AuthorityView::of_caveats(delegated).on(axis).union(closure.on(axis)),
        ) by {
        law_relation_is_containment(
            resolved.on(axis),
            AuthorityView::of_caveats(delegated).on(axis).union(closure.on(axis)),
        );
    }
    if admission(resolved, delegated, closure) == AdmissionDecision::Admit {
        assert forall|axis: ConfinedAxis| #[trigger]
            resolved.on(axis).within(
                AuthorityView::of_caveats(delegated).on(axis).union(closure.on(axis)),
            ) by {
            assert(within_bound(axis_relation(resolved, delegated, closure, axis)));
        }
    } else {
        let reject = admission(resolved, delegated, closure)->Reject_0;
        assert(!within_bound(axis_relation(resolved, delegated, closure, reject.axis)));
        assert(!resolved.on(reject.axis).within(
            AuthorityView::of_caveats(delegated).on(reject.axis).union(closure.on(reject.axis)),
        ));
    }
}

/// Declaring more in the closure never turns an admission into a refusal, as
/// long as the declared scope is known.
pub proof fn law_a_wider_closure_admits_no_less(
    resolved: AuthorityView,
    delegated: CaveatsView,
    closure: AuthorityView,
    wider: AuthorityView,
)
    requires
        forall|axis: ConfinedAxis| #[trigger] closure.on(axis).within(wider.on(axis)),
    ensures
        admission(resolved, delegated, closure) == AdmissionDecision::Admit ==> admission(
            resolved,
            delegated,
            wider,
        ) == AdmissionDecision::Admit,
{
    law_admitted_iff_within_the_bound_on_every_axis(resolved, delegated, closure);
    law_admitted_iff_within_the_bound_on_every_axis(resolved, delegated, wider);
    if admission(resolved, delegated, closure) == AdmissionDecision::Admit {
        assert forall|axis: ConfinedAxis| #[trigger]
            resolved.on(axis).within(
                AuthorityView::of_caveats(delegated).on(axis).union(wider.on(axis)),
            ) by {
            assert(resolved.on(axis).within(
                AuthorityView::of_caveats(delegated).on(axis).union(closure.on(axis)),
            ));
            assert(closure.on(axis).within(wider.on(axis)));
        }
    }
}

/// Everything that the scope permits is in the other: both are known, and the
/// other is unbounded, or lists every item and every class of the scope.
pub open spec fn is_in(a: ResolvedView, b: ResolvedView) -> bool {
    !(a is Unknown) && !(b is Unknown) && (b is Unbounded || (a is Bounded && (forall|
        x: Seq<char>,
    | #[trigger]
        a->concrete.contains(x) ==> b->concrete.contains(x)) && (forall|x: Seq<char>| #[trigger]
        a->classes.contains(x) ==> b->classes.contains(x))))
}

/// A relation is told from containment both ways; a union permits what either
/// permits.
pub proof fn law_scopes_are_related_item_by_item(
    a: &ResolvedScope,
    b: &ResolvedScope,
    r: ScopeRelation,
    within: bool,
    u: ResolvedScope,
    same: bool,
)
    requires
        call_ensures(relate, (a, b), r),
        call_ensures(ScopeRelation::stays_within, (&r,), within),
        call_ensures(ResolvedScope::union, (a, b), u),
        call_ensures(ResolvedScope::same, (a, b), same),
    ensures
        r == ScopeRelation::Unknown <==> a@ is Unknown || b@ is Unknown,
        r == ScopeRelation::Equal <==> is_in(a@, b@) && is_in(b@, a@),
        r == ScopeRelation::Subset <==> is_in(a@, b@) && !is_in(b@, a@),
        r == ScopeRelation::Superset <==> !is_in(a@, b@) && is_in(b@, a@),
        within <==> is_in(a@, b@),
        u@ is Unknown <==> a@ is Unknown || b@ is Unknown,
        u@ is Unbounded <==> !(u@ is Unknown) && (a@ is Unbounded || b@ is Unbounded),
        u@ is Bounded ==> forall|x: Seq<char>| #[trigger]
            u@->concrete.contains(x) <==> a@->concrete.contains(x) || b@->concrete.contains(x),
        u@ is Bounded ==> forall|x: Seq<char>| #[trigger]
            u@->classes.contains(x) <==> a@->classes.contains(x) || b@->classes.contains(x),
        same <==> (is_in(a@, b@) && is_in(b@, a@)) || (a@ is Unknown && b@ is Unknown),
{
    assert(is_in(a@, b@) == a@.within(b@));
    assert(is_in(b@, a@) == b@.within(a@));
    law_relation_is_containment(a@, b@);
    law_relation_is_containment(b@, a@);
    if is_in(a@, b@) && is_in(b@, a@) {
        if a@ is Bounded {
            assert(a@->concrete =~= b@->concrete);
            assert(a@->classes =~= b@->classes);
        }
        assert(a@ =~= b@);
    }
}

/// What a fence permits on an axis is covered: it is known, and so is what the
/// closure declares; and the grant or the closure is unrestricted there, or the
/// grant or the closure lists each item, and the closure each class.
pub open spec fn covered(
    resolved: ResolvedView,
    granted: ScopeView<Seq<char>>,
    closure: ResolvedView,
) -> bool {
    &&& !(resolved is Unknown) && !(closure is Unknown)
    &&& granted is All || closure is Unbounded || (resolved is Bounded && (forall|x: Seq<char>|
        #[trigger] resolved->concrete.contains(x) ==> granted->Only_0.contains(x)
            || closure->concrete.contains(x)) && (forall|x: Seq<char>| #[trigger]
        resolved->classes.contains(x) ==> closure->classes.contains(x)))
}

/// A fence is admitted exactly where on every axis what it permits is covered by
/// the grant and the closure; otherwise the refusal names the first axis on
/// which it is not, reads before writes before programs before the network.
pub proof fn law_a_fence_is_admitted_where_the_grant_covers_it(
    resolved: &ResolvedAuthority,
    delegated: &Caveats,
    closure: &ResolvedAuthority,
    r: AdmissionDecision,
)
    requires
        call_ensures(decide_admission, (resolved, delegated, closure), r),
    ensures
        ({
            let read = covered(resolved.fs_read@, delegated@.fs_read, closure.fs_read@);
            let write = covered(resolved.fs_write@, delegated@.fs_write, closure.fs_write@);
            let run = covered(resolved.exec@, delegated@.exec, closure.exec@);
            let net = covered(resolved.net@, delegated@.net, closure.net@);
            &&& r == AdmissionDecision::Admit <==> read && write && run && net
            &&& r is Reject ==> r->Reject_0.axis == (if !read {
                ConfinedAxis::FsRead
            } else if !write {
                ConfinedAxis::FsWrite
            } else if !run {
                ConfinedAxis::Exec
            } else {
                ConfinedAxis::Net
            })
        }),
{
    lemma_covered(resolved.fs_read@, delegated@.fs_read, closure.fs_read@);
    lemma_covered(resolved.fs_write@, delegated@.fs_write, closure.fs_write@);
    lemma_covered(resolved.exec@, delegated@.exec, closure.exec@);
    lemma_covered(resolved.net@, delegated@.net, closure.net@);
}

/// Being covered is staying within the bound.
pub proof fn lemma_covered(
    resolved: ResolvedView,
    granted: ScopeView<Seq<char>>,
    closure: ResolvedView,
)
    ensures
        covered(resolved, granted, closure) <==> within_bound(
            relation(resolved, ResolvedView::of_scope(granted).union(closure)),
        ),
{
    law_relation_is_containment(resolved, ResolvedView::of_scope(granted).union(closure));
    let bound = ResolvedView::of_scope(granted).union(closure);
    assert(is_in(resolved, bound) == resolved.within(bound));
    if bound is Bounded {
        assert forall|x: Seq<char>| #[trigger] bound->concrete.contains(x)
            <==> granted->Only_0.contains(x) || closure->concrete.contains(x) by {}
        assert forall|x: Seq<char>| #[trigger] bound->classes.contains(x)
            <==> closure->classes.contains(x) by {}
    }
}

/// What a grant alone authorizes: everything on an unrestricted axis, and
/// otherwise exactly the listed items and no class. The empty closure authorizes
/// nothing.
pub proof fn law_a_grant_authorizes_what_it_lists(
    delegated: &Caveats,
    r: ResolvedAuthority,
    nothing: ResolvedAuthority,
    x: Seq<char>,
)
    requires
        call_ensures(ResolvedAuthority::from_delegated, (delegated,), r),
        call_ensures(empty_closure, (), nothing),
    ensures
        r.fs_read@ is Unbounded <==> delegated@.fs_read is All,
        r.fs_write@ is Unbounded <==> delegated@.fs_write is All,
        r.exec@ is Unbounded <==> delegated@.exec is All,
        r.net@ is Unbounded <==> delegated@.net is All,
        delegated@.fs_read is Only ==> r.fs_read@ is Bounded && (
        r.fs_read@->concrete.contains(x) <==> delegated@.fs_read->Only_0.contains(x))
            && !r.fs_read@->classes.contains(x),
        delegated@.fs_write is Only ==> r.fs_write@ is Bounded && (
        r.fs_write@->concrete.contains(x) <==> delegated@.fs_write->Only_0.contains(x))
            && !r.fs_write@->classes.contains(x),
        delegated@.exec is Only ==> r.exec@ is Bounded && (r.exec@->concrete.contains(x)
            <==> delegated@.exec->Only_0.contains(x)) && !r.exec@->classes.contains(x),
        delegated@.net is Only ==> r.net@ is Bounded && (r.net@->concrete.contains(x)
            <==> delegated@.net->Only_0.contains(x)) && !r.net@->classes.contains(x),
        nothing.fs_read@ is Bounded && !nothing.fs_read@->concrete.contains(x)
            && !nothing.fs_read@->classes.contains(x),
        nothing.fs_write@ is Bounded && !nothing.fs_write@->concrete.contains(x)
            && !nothing.fs_write@->classes.contains(x),
        nothing.exec@ is Bounded && !nothing.exec@->concrete.contains(x)
            && !nothing.exec@->classes.contains(x),
        nothing.net@ is Bounded && !nothing.net@->concrete.contains(x)
            && !nothing.net@->classes.contains(x),
{
}

} // verus!
