//! The authority lattice: what a grant allows on each axis, when one grant is
//! at most another, and the meet by which authority is attenuated.

use vstd::prelude::*;

use crate::sets::{members, OrderedSet, SetItem};

verus! {

/// What one axis allows: everything, or exactly the listed values.
#[verifier::ext_equal]
#[verifier::reject_recursive_types(A)]
pub ghost enum ScopeView<A> {
    All,
    Only(Set<A>),
}

impl<A> ScopeView<A> {
    /// The axis allows `x`.
    pub open spec fn allows(self, x: A) -> bool {
        match self {
            ScopeView::All => true,
            ScopeView::Only(s) => s.contains(x),
        }
    }

    /// This axis allows no more than `other`.
    pub open spec fn leq(self, other: Self) -> bool {
        match (self, other) {
            (_, ScopeView::All) => true,
            (ScopeView::All, ScopeView::Only(_)) => false,
            (ScopeView::Only(a), ScopeView::Only(b)) => a.subset_of(b),
        }
    }

    /// The greatest scope that is at most both.
    pub open spec fn meet(self, other: Self) -> Self {
        match (self, other) {
            (ScopeView::All, x) => x,
            (x, ScopeView::All) => x,
            (ScopeView::Only(a), ScopeView::Only(b)) => ScopeView::Only(a.intersect(b)),
        }
    }
}

/// A set-valued authority axis: unrestricted, or exactly the listed items.
#[derive(Debug, PartialEq, Eq)]
pub enum Scope<T: SetItem> {
    /// Unrestricted: allows every item.
    All,
    /// Allows exactly the items of the set.
    Only(OrderedSet<T>),
}

impl<T: SetItem> View for Scope<T> {
    type V = ScopeView<T::V>;

    open spec fn view(&self) -> ScopeView<T::V> {
        match self {
            Scope::All => ScopeView::All,
            Scope::Only(s) => ScopeView::Only(s@),
        }
    }
}

impl<T: SetItem> Clone for Scope<T> {
    fn clone(&self) -> (r: Self)
        ensures
            r@ == self@,
    {
        match self {
            Scope::All => Scope::All,
            Scope::Only(s) => Scope::Only(s.clone()),
        }
    }
}

impl<T: SetItem> Scope<T> {
    /// The top of the axis: unrestricted.
    pub fn top() -> (r: Self)
        ensures
            r@ == ScopeView::<T::V>::All,
    {
        Scope::All
    }

    /// The empty authority on this axis: allows nothing.
    pub fn none() -> (r: Self)
        ensures
            r@ == ScopeView::Only(Set::<T::V>::empty()),
    {
        Scope::Only(OrderedSet::new())
    }

    /// A bounded scope that allows exactly the given items.
    pub fn only(items: Vec<T>) -> (r: Self)
        ensures
            r@ == ScopeView::Only(members(items@)),
    {
        Scope::Only(OrderedSet::from_vec(items))
    }

    /// Whether the axis allows `item`.
    pub fn allows(&self, item: &T) -> (r: bool)
        ensures
            r == self@.allows(item@),
    {
        match self {
            Scope::All => true,
            Scope::Only(s) => s.contains(item),
        }
    }

    /// Whether the axis is restricted at all.
    pub fn is_restricted(&self) -> (r: bool)
        ensures
            r == (self@ is Only),
    {
        match self {
            Scope::All => false,
            Scope::Only(_) => true,
        }
    }

    /// Whether both scopes allow the same items and are restricted alike.
    pub fn same(&self, other: &Self) -> (r: bool)
        ensures
            r == (self@ == other@),
    {
        match (self, other) {
            (Scope::All, Scope::All) => true,
            (Scope::Only(a), Scope::Only(b)) => a.same(b),
            _ => false,
        }
    }
}

/// What `agent_mesh_protocol::Scope::<String>::meet` returns: `None` for its
/// `All`, and otherwise the items of its `Only`. The meet of an unrestricted
/// scope with another is the other; the meet of two bounded scopes holds the
/// items that both hold.
#[verifier::external_body]
fn mesh_names_meet(a: &Scope<String>, b: &Scope<String>) -> (r: Option<Vec<String>>)
    ensures
        a@.meet(b@) == (match r {
            None => ScopeView::All,
            Some(v) => ScopeView::Only(members(v@)),
        }),
{
    let to = |s: &Scope<String>| match s {
        Scope::All => agent_mesh_protocol::Scope::All,
        Scope::Only(v) => agent_mesh_protocol::Scope::only(v.items.iter().cloned()),
    };
    match to(a).meet(&to(b)) {
        agent_mesh_protocol::Scope::All => None,
        agent_mesh_protocol::Scope::Only(v) => Some(v.into_iter().collect()),
    }
}

/// What `agent_mesh_protocol::Scope::<String>::leq` returns: everything is at
/// most an unrestricted scope, an unrestricted scope is at most no bounded
/// one, and a bounded scope is at most another that holds all of its items.
#[verifier::external_body]
fn mesh_names_leq(a: &Scope<String>, b: &Scope<String>) -> (r: bool)
    ensures
        r == a@.leq(b@),
{
    let to = |s: &Scope<String>| match s {
        Scope::All => agent_mesh_protocol::Scope::All,
        Scope::Only(v) => agent_mesh_protocol::Scope::only(v.items.iter().cloned()),
    };
    to(a).leq(&to(b))
}

impl Scope<String> {
    /// The greatest scope that is at most both.
    pub fn meet(&self, other: &Self) -> (r: Self)
        ensures
            r@ == self@.meet(other@),
    {
        match mesh_names_meet(self, other) {
            None => Scope::All,
            Some(v) => Scope::only(v),
        }
    }

    /// Whether this scope allows no more than `other`.
    pub fn leq(&self, other: &Self) -> (r: bool)
        ensures
            r == self@.leq(other@),
    {
        mesh_names_leq(self, other)
    }
}

/// What `agent_mesh_protocol::Scope::<u64>::meet` returns, as
/// [`mesh_names_meet`] says it of strings.
#[verifier::external_body]
fn mesh_generations_meet(a: &Scope<u64>, b: &Scope<u64>) -> (r: Option<Vec<u64>>)
    ensures
        a@.meet(b@) == (match r {
            None => ScopeView::All,
            Some(v) => ScopeView::Only(members(v@)),
        }),
{
    let to = |s: &Scope<u64>| match s {
        Scope::All => agent_mesh_protocol::Scope::All,
        Scope::Only(v) => agent_mesh_protocol::Scope::only(v.items.iter().cloned()),
    };
    match to(a).meet(&to(b)) {
        agent_mesh_protocol::Scope::All => None,
        agent_mesh_protocol::Scope::Only(v) => Some(v.into_iter().collect()),
    }
}

/// What `agent_mesh_protocol::Scope::<u64>::leq` returns, as
/// [`mesh_names_leq`] says it of strings.
#[verifier::external_body]
fn mesh_generations_leq(a: &Scope<u64>, b: &Scope<u64>) -> (r: bool)
    ensures
        r == a@.leq(b@),
{
    let to = |s: &Scope<u64>| match s {
        Scope::All => agent_mesh_protocol::Scope::All,
        Scope::Only(v) => agent_mesh_protocol::Scope::only(v.items.iter().cloned()),
    };
    to(a).leq(&to(b))
}

impl Scope<u64> {
    /// The greatest scope that is at most both.
    pub fn meet(&self, other: &Self) -> (r: Self)
        ensures
            r@ == self@.meet(other@),
    {
        match mesh_generations_meet(self, other) {
            None => Scope::All,
            Some(v) => Scope::only(v),
        }
    }

    /// Whether this scope allows no more than `other`.
    pub fn leq(&self, other: &Self) -> (r: bool)
        ensures
            r == self@.leq(other@),
    {
        mesh_generations_leq(self, other)
    }
}

/// A numeric upper bound: none, or at most this many.
#[derive(Debug, Clone, Copy, PartialEq, Eq, Structural)]
pub enum CountBound {
    /// No bound.
    Unlimited,
    /// At most this many.
    AtMost(u64),
}

/// The first bound is at least as tight as the second.
pub open spec fn count_leq(a: CountBound, b: CountBound) -> bool {
    match (a, b) {
        (_, CountBound::Unlimited) => true,
        (CountBound::Unlimited, CountBound::AtMost(_)) => false,
        (CountBound::AtMost(x), CountBound::AtMost(y)) => x <= y,
    }
}

/// The tighter of two bounds.
pub open spec fn count_meet(a: CountBound, b: CountBound) -> CountBound {
    if count_leq(a, b) {
        a
    } else {
        b
    }
}

/// What `agent_mesh_protocol::CountBound::meet` returns: the tighter bound.
#[verifier::external_body]
fn mesh_count_meet(a: CountBound, b: CountBound) -> (r: CountBound)
    ensures
        r == count_meet(a, b),
{
    let to = |c: CountBound| match c {
        CountBound::Unlimited => agent_mesh_protocol::CountBound::Unlimited,
        CountBound::AtMost(n) => agent_mesh_protocol::CountBound::AtMost(n),
    };
    match to(a).meet(&to(b)) {
        agent_mesh_protocol::CountBound::Unlimited => CountBound::Unlimited,
        agent_mesh_protocol::CountBound::AtMost(n) => CountBound::AtMost(n),
    }
}

/// What `agent_mesh_protocol::CountBound::leq` returns: whether the first
/// bound is at least as tight as the second.
#[verifier::external_body]
fn mesh_count_leq(a: CountBound, b: CountBound) -> (r: bool)
    ensures
        r == count_leq(a, b),
{
    let to = |c: CountBound| match c {
        CountBound::Unlimited => agent_mesh_protocol::CountBound::Unlimited,
        CountBound::AtMost(n) => agent_mesh_protocol::CountBound::AtMost(n),
    };
    to(a).leq(&to(b))
}

impl CountBound {
    /// The top of the axis: no bound.
    pub fn top() -> (r: Self)
        ensures
            r == CountBound::Unlimited,
    {
        CountBound::Unlimited
    }

    /// The tighter of the two bounds.
    pub fn meet(&self, other: &Self) -> (r: Self)
        ensures
            r == count_meet(*self, *other),
    {
        mesh_count_meet(*self, *other)
    }

    /// Whether this bound is at least as tight as `other`.
    pub fn leq(&self, other: &Self) -> (r: bool)
        ensures
            r == count_leq(*self, *other),
    {
        mesh_count_leq(*self, *other)
    }
}

/// The model of [`Caveats`]: what each axis allows.
#[verifier::ext_equal]
pub ghost struct CaveatsView {
    pub fs_read: ScopeView<Seq<char>>,
    pub fs_write: ScopeView<Seq<char>>,
    pub exec exec: ScopeView<Seq<char>>,
    pub net: ScopeView<Seq<char>>,
    pub max_calls: CountBound,
    pub valid_for_generation: ScopeView<u64>,
}

impl CaveatsView {
    /// Unrestricted authority on every axis.
    pub open spec fn top() -> Self {
        CaveatsView {
            fs_read: ScopeView::All,
            fs_write: ScopeView::All,
            exec: ScopeView::All,
            net: ScopeView::All,
            max_calls: CountBound::Unlimited,
            valid_for_generation: ScopeView::All,
        }
    }

    /// Grants no more than `other` on every axis.
    pub open spec fn leq(self, other: Self) -> bool {
        &&& self.fs_read.leq(other.fs_read)
        &&& self.fs_write.leq(other.fs_write)
        &&& self.exec.leq(other.exec)
        &&& self.net.leq(other.net)
        &&& count_leq(self.max_calls, other.max_calls)
        &&& self.valid_for_generation.leq(other.valid_for_generation)
    }

    /// The greatest lower bound, axis by axis.
    pub open spec fn meet(self, other: Self) -> Self {
        CaveatsView {
            fs_read: self.fs_read.meet(other.fs_read),
            fs_write: self.fs_write.meet(other.fs_write),
            exec: self.exec.meet(other.exec),
            net: self.net.meet(other.net),
            max_calls: count_meet(self.max_calls, other.max_calls),
            valid_for_generation: self.valid_for_generation.meet(other.valid_for_generation),
        }
    }
}

/// The capability set that an agent holds.
#[derive(Debug, PartialEq, Eq)]
pub struct Caveats {
    /// Filesystem paths the agent may read.
    pub fs_read: Scope<String>,
    /// Filesystem paths the agent may write.
    pub fs_write: Scope<String>,
    /// Commands the agent may execute.
    pub exec exec: Scope<String>,
    /// Network hosts the agent may reach.
    pub net: Scope<String>,
    /// Upper bound on the tool calls that this authority permits.
    pub max_calls: CountBound,
    /// Generations that this authority is valid for: a counter, never a clock.
    pub valid_for_generation: Scope<u64>,
}

impl View for Caveats {
    type V = CaveatsView;

    open spec fn view(&self) -> CaveatsView {
        CaveatsView {
            fs_read: self.fs_read@,
            fs_write: self.fs_write@,
            exec: self.exec@,
            net: self.net@,
            max_calls: self.max_calls,
            valid_for_generation: self.valid_for_generation@,
        }
    }
}

impl Clone for Caveats {
    fn clone(&self) -> (r: Self)
        ensures
            r@ == self@,
    {
        Caveats {
            fs_read: self.fs_read.clone(),
            fs_write: self.fs_write.clone(),
            exec: self.exec.clone(),
            net: self.net.clone(),
            max_calls: self.max_calls,
            valid_for_generation: self.valid_for_generation.clone(),
        }
    }
}

impl Default for Caveats {
    /// No caveats: unrestricted authority.
    fn default() -> (r: Self)
        ensures
            r@ == CaveatsView::top(),
    {
        Caveats::top()
    }
}

impl Caveats {
    /// Unrestricted authority on every axis.
    pub fn top() -> (r: Self)
        ensures
            r@ == CaveatsView::top(),
    {
        Caveats {
            fs_read: Scope::All,
            fs_write: Scope::All,
            exec: Scope::All,
            net: Scope::All,
            max_calls: CountBound::Unlimited,
            valid_for_generation: Scope::All,
        }
    }

    /// Whether this authority grants no more than `other` on every axis.
    pub fn leq(&self, other: &Self) -> (r: bool)
        ensures
            r == self@.leq(other@),
    {
        self.fs_read.leq(&other.fs_read) && self.fs_write.leq(&other.fs_write) && self.exec.leq(
            &other.exec,
        ) && self.net.leq(&other.net) && self.max_calls.leq(&other.max_calls)
            && self.valid_for_generation.leq(&other.valid_for_generation)
    }

    /// The greatest lower bound, axis by axis: how authority composes along a
    /// delegation chain.
    pub fn meet(&self, other: &Self) -> (r: Self)
        ensures
            r@ == self@.meet(other@),
    {
        Caveats {
            fs_read: self.fs_read.meet(&other.fs_read),
            fs_write: self.fs_write.meet(&other.fs_write),
            exec: self.exec.meet(&other.exec),
            net: self.net.meet(&other.net),
            max_calls: self.max_calls.meet(&other.max_calls),
            valid_for_generation: self.valid_for_generation.meet(&other.valid_for_generation),
        }
    }

    /// Whether both grant the same authority.
    pub fn same(&self, other: &Self) -> (r: bool)
        ensures
            r == (self@ == other@),
    {
        self.fs_read.same(&other.fs_read) && self.fs_write.same(&other.fs_write)
            && self.exec.same(&other.exec) && self.net.same(&other.net) && self.max_calls
            == other.max_calls && self.valid_for_generation.same(&other.valid_for_generation)
    }
}

/// Authority is partially ordered: every authority is at most itself, two that
/// are at most each other are the same, and at-most carries over a chain.
pub proof fn law_leq_is_a_partial_order(a: CaveatsView, b: CaveatsView, c: CaveatsView)
    ensures
        a.leq(a),
        a.leq(b) && b.leq(a) ==> a == b,
        a.leq(b) && b.leq(c) ==> a.leq(c),
{
    if a.leq(b) && b.leq(a) {
        lemma_scope_antisymmetric(a.fs_read, b.fs_read);
        lemma_scope_antisymmetric(a.fs_write, b.fs_write);
        lemma_scope_antisymmetric(a.exec, b.exec);
        lemma_scope_antisymmetric(a.net, b.net);
        lemma_scope_antisymmetric(a.valid_for_generation, b.valid_for_generation);
    }
}

proof fn lemma_scope_antisymmetric<A>(a: ScopeView<A>, b: ScopeView<A>)
    requires
        a.leq(b),
        b.leq(a),
    ensures
        a == b,
{
    if let (ScopeView::Only(x), ScopeView::Only(y)) = (a, b) {
        assert(x =~= y);
    }
}

/// The meet is the greatest lower bound: it is at most both authorities, and
/// whatever is at most both is at most the meet. No composition of authority
/// amplifies it.
pub proof fn law_meet_is_the_greatest_lower_bound(a: CaveatsView, b: CaveatsView, c: CaveatsView)
    ensures
        a.meet(b).leq(a),
        a.meet(b).leq(b),
        c.leq(a) && c.leq(b) ==> c.leq(a.meet(b)),
{
}

/// The meet does not depend on order or grouping, the meet of an authority
/// with itself is that authority, and so is its meet with unrestricted
/// authority.
pub proof fn law_meet_is_a_semilattice(a: CaveatsView, b: CaveatsView, c: CaveatsView)
    ensures
        a.meet(b) == b.meet(a),
        a.meet(b).meet(c) == a.meet(b.meet(c)),
        a.meet(a) == a,
        a.meet(CaveatsView::top()) == a,
        a.leq(CaveatsView::top()),
{
    lemma_scope_semilattice(a.fs_read, b.fs_read, c.fs_read);
    lemma_scope_semilattice(a.fs_write, b.fs_write, c.fs_write);
    lemma_scope_semilattice(a.exec, b.exec, c.exec);
    lemma_scope_semilattice(a.net, b.net, c.net);
    lemma_scope_semilattice(
        a.valid_for_generation,
        b.valid_for_generation,
        c.valid_for_generation,
    );
}

proof fn lemma_scope_semilattice<A>(a: ScopeView<A>, b: ScopeView<A>, c: ScopeView<A>)
    ensures
        a.meet(b) == b.meet(a),
        a.meet(b).meet(c) == a.meet(b.meet(c)),
        a.meet(a) == a,
        a.meet(ScopeView::All) == a,
{
    assert(a.meet(b) =~= b.meet(a));
    assert(a.meet(b).meet(c) =~= a.meet(b.meet(c)));
    assert(a.meet(a) =~= a);
}

/// The meet of two authorities allows on each axis exactly what both allow, and
/// as many calls as the tighter of their bounds.
pub proof fn law_a_meet_allows_what_both_allow(a: &Caveats, b: &Caveats, r: Caveats)
    requires
        call_ensures(Caveats::meet, (a, b), r),
    ensures
        forall|x: Seq<char>| #[trigger]
            r@.fs_read.allows(x) <==> (a@.fs_read is All || a@.fs_read->Only_0.contains(x)) && (
            b@.fs_read is All || b@.fs_read->Only_0.contains(x)),
        forall|x: Seq<char>| #[trigger]
            r@.fs_write.allows(x) <==> (a@.fs_write is All || a@.fs_write->Only_0.contains(x)) && (
            b@.fs_write is All || b@.fs_write->Only_0.contains(x)),
        forall|x: Seq<char>| #[trigger]
            r@.exec.allows(x) <==> (a@.exec is All || a@.exec->Only_0.contains(x)) && (b@.exec is All
                || b@.exec->Only_0.contains(x)),
        forall|x: Seq<char>| #[trigger]
            r@.net.allows(x) <==> (a@.net is All || a@.net->Only_0.contains(x)) && (b@.net is All
                || b@.net->Only_0.contains(x)),
        forall|g: u64| #[trigger]
            r@.valid_for_generation.allows(g) <==> (a@.valid_for_generation is All
                || a@.valid_for_generation->Only_0.contains(g)) && (b@.valid_for_generation is All
                || b@.valid_for_generation->Only_0.contains(g)),
        r@.fs_read is All <==> a@.fs_read is All && b@.fs_read is All,
        r@.fs_write is All <==> a@.fs_write is All && b@.fs_write is All,
        r@.exec is All <==> a@.exec is All && b@.exec is All,
        r@.net is All <==> a@.net is All && b@.net is All,
        r@.valid_for_generation is All <==> a@.valid_for_generation is All
            && b@.valid_for_generation is All,
        r@.max_calls is Unlimited <==> a@.max_calls is Unlimited && b@.max_calls is Unlimited,
        r@.max_calls is AtMost ==> {
            &&& a@.max_calls is AtMost ==> r@.max_calls->AtMost_0 <= a@.max_calls->AtMost_0
            &&& b@.max_calls is AtMost ==> r@.max_calls->AtMost_0 <= b@.max_calls->AtMost_0
            &&& r@.max_calls == a@.max_calls || r@.max_calls == b@.max_calls
        },
{
}

/// One authority is at most another exactly where everything that it allows on
/// an axis the other allows, and its bound on calls is no looser. A listed axis
/// is never at least an unrestricted one.
pub proof fn law_at_most_is_allowing_no_more(a: &Caveats, b: &Caveats, r: bool, x: &Scope<String>, item: &String, allowed: bool)
    requires
        call_ensures(Caveats::leq, (a, b), r),
        call_ensures(Scope::<String>::allows, (x, item), allowed),
    ensures
        r <==> {
            &&& b@.fs_read is All || (a@.fs_read is Only && forall|i: Seq<char>| #[trigger]
                a@.fs_read->Only_0.contains(i) ==> b@.fs_read->Only_0.contains(i))
            &&& b@.fs_write is All || (a@.fs_write is Only && forall|i: Seq<char>| #[trigger]
                a@.fs_write->Only_0.contains(i) ==> b@.fs_write->Only_0.contains(i))
            &&& b@.exec is All || (a@.exec is Only && forall|i: Seq<char>| #[trigger]
                a@.exec->Only_0.contains(i) ==> b@.exec->Only_0.contains(i))
            &&& b@.net is All || (a@.net is Only && forall|i: Seq<char>| #[trigger]
                a@.net->Only_0.contains(i) ==> b@.net->Only_0.contains(i))
            &&& b@.valid_for_generation is All || (a@.valid_for_generation is Only && forall|
                i: u64,
            | #[trigger]
                a@.valid_for_generation->Only_0.contains(i)
                    ==> b@.valid_for_generation->Only_0.contains(i))
            &&& b@.max_calls is Unlimited || (a@.max_calls is AtMost && a@.max_calls->AtMost_0
                <= b@.max_calls->AtMost_0)
        },
        allowed <==> x@ is All || x@->Only_0.contains(item@),
{
}

/// Unrestricted authority allows everything, the empty scope nothing, and a
/// listed one exactly what is listed.
pub proof fn law_scopes_allow_what_they_list(top: Caveats, none: Scope<String>, items: Vec<String>, some: Scope<String>)
    requires
        call_ensures(Caveats::top, (), top),
        call_ensures(Scope::<String>::none, (), none),
        call_ensures(Scope::<String>::only, (items,), some),
    ensures
        top@.fs_read is All && top@.fs_write is All && top@.exec is All && top@.net is All
            && top@.valid_for_generation is All && top@.max_calls is Unlimited,
        none@ is Only && forall|x: Seq<char>| !#[trigger] none@->Only_0.contains(x),
        some@ is Only && forall|x: Seq<char>| #[trigger]
            some@->Only_0.contains(x) <==> exists|i: int|
                0 <= i < items@.len() && #[trigger] items@[i]@ == x,
{
    assert forall|x: Seq<char>| #[trigger] some@->Only_0.contains(x) <==> exists|i: int|
        0 <= i < items@.len() && #[trigger] items@[i]@ == x by {
        crate::sets::lemma_members_contains(items@, x);
    }
}

} // verus!
