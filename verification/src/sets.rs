//! Ordered sets: no item occurs twice, and the items come out in ascending
//! order.

use vstd::prelude::*;

use crate::text::{lemma_utf8_injective, str_below, str_equal, str_less};
use crate::text::{lemma_bytes_below_irreflexive, lemma_bytes_below_total, lemma_bytes_below_transitive};
use vstd::utf8::encode_utf8;

verus! {

/// An item of an ordered set: its view is strictly and totally ordered.
pub trait SetItem: View + Sized {
    /// The strict order on the views.
    spec fn below(a: Self::V, b: Self::V) -> bool;

    proof fn below_irreflexive(a: Self::V)
        ensures
            !Self::below(a, a),
    ;

    proof fn below_transitive(a: Self::V, b: Self::V, c: Self::V)
        requires
            Self::below(a, b),
            Self::below(b, c),
        ensures
            Self::below(a, c),
    ;

    proof fn below_total(a: Self::V, b: Self::V)
        ensures
            a == b || Self::below(a, b) || Self::below(b, a),
    ;

    /// Whether `self` comes strictly before `other`.
    fn comes_before(&self, other: &Self) -> (r: bool)
        ensures
            r == Self::below(self@, other@),
    ;

    /// Whether both items stand for the same value.
    fn same(&self, other: &Self) -> (r: bool)
        ensures
            r == (self@ == other@),
    ;

    /// A copy of the item.
    fn duplicate(&self) -> (r: Self)
        ensures
            r@ == self@,
    ;
}

impl SetItem for String {
    open spec fn below(a: Seq<char>, b: Seq<char>) -> bool {
        str_below(a, b)
    }

    proof fn below_irreflexive(a: Seq<char>) {
        lemma_bytes_below_irreflexive(encode_utf8(a));
    }

    proof fn below_transitive(a: Seq<char>, b: Seq<char>, c: Seq<char>) {
        lemma_bytes_below_transitive(encode_utf8(a), encode_utf8(b), encode_utf8(c));
    }

    proof fn below_total(a: Seq<char>, b: Seq<char>) {
        lemma_bytes_below_total(encode_utf8(a), encode_utf8(b));
        if encode_utf8(a) == encode_utf8(b) {
            lemma_utf8_injective(a, b);
        }
    }

    fn comes_before(&self, other: &Self) -> (r: bool) {
        str_less(self.as_str(), other.as_str())
    }

    fn same(&self, other: &Self) -> (r: bool) {
        str_equal(self.as_str(), other.as_str())
    }

    fn duplicate(&self) -> (r: Self) {
        self.clone()
    }
}

impl SetItem for u64 {
    open spec fn below(a: u64, b: u64) -> bool {
        a < b
    }

    proof fn below_irreflexive(a: u64) {
    }

    proof fn below_transitive(a: u64, b: u64, c: u64) {
    }

    proof fn below_total(a: u64, b: u64) {
    }

    fn comes_before(&self, other: &Self) -> (r: bool) {
        *self < *other
    }

    fn same(&self, other: &Self) -> (r: bool) {
        *self == *other
    }

    fn duplicate(&self) -> (r: Self) {
        *self
    }
}

/// The views of the items of a sequence, in order.
pub open spec fn views<T: View>(items: Seq<T>) -> Seq<T::V> {
    items.map_values(|t: T| t@)
}

pub proof fn lemma_views_push<T: View>(items: Seq<T>, x: T)
    ensures
        views(items.push(x)) == views(items).push(x@),
{
    assert(views(items.push(x)) =~= views(items).push(x@));
}

pub proof fn lemma_views_subrange<T: View>(items: Seq<T>, from: int, to: int)
    requires
        0 <= from <= to <= items.len(),
    ensures
        views(items.subrange(from, to)) == views(items).subrange(from, to),
{
    assert(views(items.subrange(from, to)) =~= views(items).subrange(from, to));
}

/// The values that a sequence of items holds.
pub open spec fn members<T: View>(items: Seq<T>) -> Set<T::V> {
    views(items).to_set()
}

/// The items stand in strictly ascending order.
pub open spec fn ascending<T: SetItem>(items: Seq<T>) -> bool {
    ascending_values::<T>(views(items))
}

pub proof fn lemma_members_contains<T: View>(items: Seq<T>, x: T::V)
    ensures
        members(items).contains(x) <==> exists|i: int|
            0 <= i < items.len() && #[trigger] items[i]@ == x,
{
    let vs = views(items);
    if members(items).contains(x) {
        let i = choose|i: int| 0 <= i < vs.len() && vs[i] == x;
        assert(items[i]@ == x);
    }
    if exists|i: int| 0 <= i < items.len() && #[trigger] items[i]@ == x {
        let i = choose|i: int| 0 <= i < items.len() && #[trigger] items[i]@ == x;
        assert(vs[i] == x);
        assert(vs.contains(x));
    }
}

/// The values of a set in ascending order.
pub open spec fn in_order<T: SetItem>(s: Set<T::V>) -> Seq<T::V> {
    choose|q: Seq<T::V>| ascending_values::<T>(q) && q.to_set() == s
}

/// The values stand in strictly ascending order.
pub open spec fn ascending_values<T: SetItem>(q: Seq<T::V>) -> bool {
    forall|i: int, j: int| 0 <= i < j < q.len() ==> T::below(#[trigger] q[i], #[trigger] q[j])
}

/// An ascending sequence is determined by its values.
pub proof fn lemma_ascending_values_unique<T: SetItem>(a: Seq<T::V>, b: Seq<T::V>)
    requires
        ascending_values::<T>(a),
        ascending_values::<T>(b),
        a.to_set() == b.to_set(),
    ensures
        a == b,
    decreases a.len(),
{
    assert forall|v: T::V| a.contains(v) <==> b.contains(v) by {
        assert(a.to_set().contains(v) == a.contains(v));
        assert(b.to_set().contains(v) == b.contains(v));
    }
    if a.len() == 0 {
        if b.len() > 0 {
            assert(b.contains(b[0]));
            assert(false);
        }
        assert(a =~= b);
    } else if b.len() == 0 {
        assert(a.contains(a[0]));
        assert(false);
    } else {
        let x = a.last();
        let y = b.last();
        assert(a.contains(x) && b.contains(y));
        let i = choose|i: int| 0 <= i < b.len() && b[i] == x;
        let j = choose|j: int| 0 <= j < a.len() && a[j] == y;
        if x != y {
            assert(T::below(b[i], b[b.len() - 1]));
            assert(T::below(a[j], a[a.len() - 1]));
            T::below_transitive(x, y, x);
            T::below_irreflexive(x);
            assert(false);
        }
        let a1 = a.drop_last();
        let b1 = b.drop_last();
        assert forall|v: T::V| a1.to_set().contains(v) <==> b1.to_set().contains(v) by {
            if a1.contains(v) {
                let k = choose|k: int| 0 <= k < a1.len() && a1[k] == v;
                assert(a[k] == v);
                assert(T::below(a[k], a[a.len() - 1]));
                T::below_irreflexive(v);
                assert(b.contains(v));
                let m = choose|m: int| 0 <= m < b.len() && b[m] == v;
                assert(b1[m] == v);
            }
            if b1.contains(v) {
                let k = choose|k: int| 0 <= k < b1.len() && b1[k] == v;
                assert(b[k] == v);
                assert(T::below(b[k], b[b.len() - 1]));
                T::below_irreflexive(v);
                assert(a.contains(v));
                let m = choose|m: int| 0 <= m < a.len() && a[m] == v;
                assert(a1[m] == v);
            }
        }
        assert(a1.to_set() =~= b1.to_set());
        lemma_ascending_values_unique::<T>(a1, b1);
        assert(a =~= a1.push(x));
        assert(b =~= b1.push(y));
    }
}

/// The values of an ascending list are its set in order.
pub proof fn lemma_in_order<T: SetItem>(q: Seq<T::V>)
    requires
        ascending_values::<T>(q),
    ensures
        in_order::<T>(q.to_set()) == q,
{
    lemma_ascending_values_unique::<T>(in_order::<T>(q.to_set()), q);
}

/// An ascending sequence takes one more value.
proof fn lemma_place_value<T: SetItem>(q: Seq<T::V>, x: T::V) -> (r: Seq<T::V>)
    requires
        ascending_values::<T>(q),
        !q.contains(x),
    ensures
        ascending_values::<T>(r),
        forall|v: T::V| #[trigger] r.contains(v) <==> v == x || q.contains(v),
    decreases q.len(),
{
    if q.len() == 0 {
        let r = seq![x];
        assert(r[0] == x);
        r
    } else {
        let last = q.last();
        let front = q.drop_last();
        assert(q.contains(q[q.len() - 1]));
        T::below_total(last, x);
        if T::below(last, x) {
            let r = q.push(x);
            assert forall|i: int, j: int| 0 <= i < j < r.len() implies T::below(
                #[trigger] r[i],
                #[trigger] r[j],
            ) by {
                assert(r[i] == q[i]);
                if j == q.len() {
                    if i < q.len() - 1 {
                        T::below_transitive(q[i], q[q.len() - 1], x);
                    }
                } else {
                    assert(r[j] == q[j]);
                }
            }
            assert forall|v: T::V| #[trigger] r.contains(v) <==> v == x || q.contains(v) by {
                if q.contains(v) {
                    let k = choose|k: int| 0 <= k < q.len() && q[k] == v;
                    assert(r[k] == v);
                }
                assert(r[q.len() as int] == x);
            }
            r
        } else {
            assert forall|i: int, j: int| 0 <= i < j < front.len() implies T::below(
                #[trigger] front[i],
                #[trigger] front[j],
            ) by {
                assert(front[i] == q[i] && front[j] == q[j]);
            }
            assert(!front.contains(x)) by {
                if front.contains(x) {
                    let k = choose|k: int| 0 <= k < front.len() && front[k] == x;
                    assert(q[k] == x);
                }
            }
            let inner = lemma_place_value::<T>(front, x);
            let r = inner.push(last);
            assert forall|i: int, j: int| 0 <= i < j < r.len() implies T::below(
                #[trigger] r[i],
                #[trigger] r[j],
            ) by {
                assert(r[i] == inner[i]);
                if j == inner.len() {
                    assert(inner.contains(inner[i]));
                    if inner[i] != x {
                        let k = choose|k: int| 0 <= k < front.len() && front[k] == inner[i];
                        assert(q[k] == inner[i]);
                        assert(T::below(q[k], q[q.len() - 1]));
                    }
                } else {
                    assert(r[j] == inner[j]);
                }
            }
            assert forall|v: T::V| #[trigger] r.contains(v) <==> v == x || q.contains(v) by {
                if inner.contains(v) {
                    let k = choose|k: int| 0 <= k < inner.len() && inner[k] == v;
                    assert(r[k] == v);
                }
                if front.contains(v) {
                    let k = choose|k: int| 0 <= k < front.len() && front[k] == v;
                    assert(q[k] == v);
                }
                if q.contains(v) {
                    let k = choose|k: int| 0 <= k < q.len() && q[k] == v;
                    if k < front.len() {
                        assert(front[k] == v);
                        assert(front.contains(v));
                    }
                }
                assert(r[inner.len() as int] == last);
                if r.contains(v) && v != last {
                    let k = choose|k: int| 0 <= k < r.len() && r[k] == v;
                    assert(inner[k] == v);
                    assert(inner.contains(v));
                }
            }
            r
        }
    }
}

proof fn lemma_some_order<T: SetItem>(s: Set<T::V>) -> (q: Seq<T::V>)
    requires
        s.finite(),
    ensures
        ascending_values::<T>(q),
        q.to_set() == s,
    decreases s.len(),
{
    if s.len() == 0 {
        let q = Seq::<T::V>::empty();
        assert(q.to_set() =~= s);
        q
    } else {
        let x = s.choose();
        let before = lemma_some_order::<T>(s.remove(x));
        assert(!before.contains(x)) by {
            if before.contains(x) {
                assert(before.to_set().contains(x));
            }
        }
        let q = lemma_place_value::<T>(before, x);
        assert forall|v: T::V| q.to_set().contains(v) <==> s.contains(v) by {
            assert(q.to_set().contains(v) == q.contains(v));
            assert(before.to_set().contains(v) == before.contains(v));
        }
        assert(q.to_set() =~= s);
        q
    }
}

/// The values of a finite set in ascending order are all of its values, each
/// once, and no other.
pub proof fn law_a_set_in_order_is_that_set<T: SetItem>(s: Set<T::V>)
    requires
        s.finite(),
    ensures
        in_order::<T>(s).to_set() == s,
        forall|v: T::V| #[trigger] in_order::<T>(s).contains(v) <==> s.contains(v),
        forall|i: int, j: int|
            0 <= i < j < in_order::<T>(s).len() ==> T::below(
                #[trigger] in_order::<T>(s)[i],
                #[trigger] in_order::<T>(s)[j],
            ),
{
    let q = lemma_some_order::<T>(s);
    lemma_in_order::<T>(q);
    assert forall|v: T::V| #[trigger] in_order::<T>(s).contains(v) <==> s.contains(v) by {
        assert(q.to_set().contains(v) == q.contains(v));
    }
}

impl<T: SetItem> OrderedSet<T> {
    /// A set of items is finite.
    pub proof fn lemma_finite(&self)
        ensures
            self@.finite(),
    {
        vstd::seq_lib::seq_to_set_is_finite(views(self.items@));
    }
}

/// A set of items, kept in ascending order.
#[derive(Debug, PartialEq, Eq)]
pub struct OrderedSet<T: SetItem> {
    pub(crate) items: Vec<T>,
}

impl<T: SetItem> View for OrderedSet<T> {
    type V = Set<T::V>;

    closed spec fn view(&self) -> Set<T::V> {
        members(self.items@)
    }
}

impl<T: SetItem> OrderedSet<T> {
    #[verifier::type_invariant]
    spec fn well_formed(self) -> bool {
        ascending(self.items@)
    }

    /// The set that holds nothing.
    pub fn new() -> (r: Self)
        ensures
            r@ == Set::<T::V>::empty(),
    {
        let r = OrderedSet { items: Vec::new() };
        assert(r@ =~= Set::<T::V>::empty());
        r
    }

    /// The items in ascending order: each value of the set once, and no other.
    pub fn as_vec(&self) -> (r: &Vec<T>)
        ensures
            views(r@) == in_order::<T>(self@),
            ascending(r@),
            members(r@) == self@,
    {
        proof {
            use_type_invariant(self);
            lemma_in_order::<T>(views(self.items@));
        }
        &self.items
    }

    /// Whether the set holds nothing.
    pub fn is_empty(&self) -> (r: bool)
        ensures
            r == (self@ == Set::<T::V>::empty()),
    {
        let r: bool = self.items.len() == 0;
        proof {
            if r {
                assert(self@ =~= Set::<T::V>::empty());
            } else {
                lemma_members_contains(self.items@, self.items@[0]@);
            }
        }
        r
    }

    /// The number of values.
    pub fn len(&self) -> (r: usize)
        ensures
            self@.finite(),
            r == self@.len(),
    {
        proof {
            use_type_invariant(self);
            let vs = views(self.items@);
            assert forall|i: int, j: int| 0 <= i < j < vs.len() implies vs[i] != vs[j] by {
                T::below_irreflexive(vs[i]);
            }
            vs.unique_seq_to_set();
        }
        self.items.len()
    }

    /// Whether the set holds the value of `item`.
    pub fn contains(&self, item: &T) -> (r: bool)
        ensures
            r == self@.contains(item@),
    {
        let mut i: usize = 0;
        while i < self.items.len()
            invariant
                i <= self.items.len(),
                forall|k: int| 0 <= k < i ==> (#[trigger] self.items@[k])@ != item@,
            decreases self.items.len() - i,
        {
            if self.items[i].same(item) {
                proof {
                    lemma_members_contains(self.items@, item@);
                }
                return true;
            }
            i = i + 1;
        }
        proof {
            lemma_members_contains(self.items@, item@);
        }
        false
    }

    /// Add one item. An item that is already there changes nothing.
    pub fn insert(&mut self, item: T)
        ensures
            final(self)@ == old(self)@.insert(item@),
    {
        proof {
            use_type_invariant(&*self);
        }
        let mut items: Vec<T> = Vec::new();
        std::mem::swap(&mut items, &mut self.items);
        let ghost before = items@;
        let mut i: usize = 0;
        while i < items.len() && items[i].comes_before(&item)
            invariant
                items@ == before,
                i <= items.len(),
                forall|k: int| 0 <= k < i ==> T::below((#[trigger] before[k])@, item@),
            decreases items.len() - i,
        {
            i = i + 1;
        }
        if i < items.len() && items[i].same(&item) {
            self.items = items;
            proof {
                lemma_members_contains(before, item@);
                assert(before[i as int]@ == item@);
                assert(self@ =~= old(self)@.insert(item@));
            }
        } else {
            proof {
                if i < before.len() {
                    T::below_total(before[i as int]@, item@);
                }
                let after = before.insert(i as int, item);
                let vb = views(before);
                let va = views(after);
                assert forall|p: int, q: int| 0 <= p < q < va.len() implies T::below(
                    #[trigger] va[p],
                    #[trigger] va[q],
                ) by {
                    let fp = if p < i { p } else { p - 1 };
                    let fq = if q < i { q } else { q - 1 };
                    if p == i {
                        assert(va[q] == vb[q - 1]);
                        assert(vb[i as int] == before[i as int]@);
                        if q - 1 > i {
                            assert(T::below(vb[i as int], vb[q - 1]));
                            T::below_transitive(item@, vb[i as int], vb[q - 1]);
                        }
                    } else if q == i {
                        assert(va[p] == before[p]@);
                    } else {
                        assert(va[p] == vb[fp]);
                        assert(va[q] == vb[fq]);
                        assert(T::below(vb[fp], vb[fq]));
                    }
                }
                assert forall|v: T::V| members(after).contains(v) <==> members(before).insert(
                    item@,
                ).contains(v) by {
                    lemma_members_contains(after, v);
                    lemma_members_contains(before, v);
                    if members(before).contains(v) {
                        let k = choose|k: int| 0 <= k < before.len() && #[trigger] before[k]@ == v;
                        if k < i {
                            assert(after[k]@ == v);
                        } else {
                            assert(after[k + 1]@ == v);
                        }
                    }
                    assert(after[i as int]@ == item@);
                    if members(after).contains(v) {
                        let k = choose|k: int| 0 <= k < after.len() && #[trigger] after[k]@ == v;
                        if k < i {
                            assert(before[k]@ == v);
                        } else if k > i {
                            assert(before[k - 1]@ == v);
                        }
                    }
                }
                assert(members(after) =~= members(before).insert(item@));
            }
            items.insert(i, item);
            self.items = items;
        }
    }

    /// The set of the values of `items`.
    pub fn from_vec(items: Vec<T>) -> (r: Self)
        ensures
            r@ == members(items@),
    {
        let mut r: OrderedSet<T> = OrderedSet::new();
        let mut i: usize = 0;
        assert(members(items@.take(0)) =~= Set::<T::V>::empty());
        while i < items.len()
            invariant
                i <= items.len(),
                r@ == members(items@.take(i as int)),
            decreases items.len() - i,
        {
            r.insert(items[i].duplicate());
            proof {
                let before = items@.take(i as int);
                let after = items@.take(i + 1);
                assert(after =~= before.push(items@[i as int]));
                lemma_members_push(before, items@[i as int]);
            }
            i = i + 1;
        }
        assert(items@.take(i as int) =~= items@);
        r
    }

    /// Add every item of `other`.
    pub fn extend(&mut self, other: &Self)
        ensures
            final(self)@ == old(self)@.union(other@),
    {
        let mut i: usize = 0;
        assert(members(other.items@.take(0)) =~= Set::<T::V>::empty());
        assert(self@ =~= old(self)@.union(members(other.items@.take(0))));
        while i < other.items.len()
            invariant
                i <= other.items.len(),
                self@ == old(self)@.union(members(other.items@.take(i as int))),
            decreases other.items.len() - i,
        {
            self.insert(other.items[i].duplicate());
            proof {
                let before = other.items@.take(i as int);
                let after = other.items@.take(i + 1);
                assert(after =~= before.push(other.items@[i as int]));
                lemma_members_push(before, other.items@[i as int]);
                assert(old(self)@.union(members(before)).insert(other.items@[i as int]@)
                    =~= old(self)@.union(members(after)));
            }
            i = i + 1;
        }
        assert(other.items@.take(i as int) =~= other.items@);
    }

    /// Whether every value of this set is in `other`.
    pub fn is_subset(&self, other: &Self) -> (r: bool)
        ensures
            r == self@.subset_of(other@),
    {
        let mut i: usize = 0;
        while i < self.items.len()
            invariant
                i <= self.items.len(),
                forall|k: int| 0 <= k < i ==> other@.contains((#[trigger] self.items@[k])@),
            decreases self.items.len() - i,
        {
            if !other.contains(&self.items[i]) {
                proof {
                    lemma_members_contains(self.items@, self.items@[i as int]@);
                }
                return false;
            }
            i = i + 1;
        }
        proof {
            assert forall|v: T::V| self@.contains(v) implies other@.contains(v) by {
                lemma_members_contains(self.items@, v);
            }
        }
        true
    }

    /// Whether both sets hold the same values.
    pub fn same(&self, other: &Self) -> (r: bool)
        ensures
            r == (self@ == other@),
    {
        let r: bool = self.is_subset(other) && other.is_subset(self);
        proof {
            if r {
                assert(self@ =~= other@);
            }
        }
        r
    }
}

impl<T: SetItem> Clone for OrderedSet<T> {
    fn clone(&self) -> (r: Self)
        ensures
            r@ == self@,
    {
        let mut r: OrderedSet<T> = OrderedSet::new();
        r.extend(self);
        assert(r@ =~= self@);
        r
    }
}

pub proof fn lemma_members_push<T: View>(items: Seq<T>, x: T)
    ensures
        members(items.push(x)) == members(items).insert(x@),
{
    let after = items.push(x);
    assert forall|v: T::V| members(after).contains(v) <==> members(items).insert(x@).contains(v) by {
        lemma_members_contains(after, v);
        lemma_members_contains(items, v);
        if members(items).contains(v) {
            let k = choose|k: int| 0 <= k < items.len() && #[trigger] items[k]@ == v;
            assert(after[k]@ == v);
        }
        assert(after[items.len() as int]@ == x@);
        if members(after).contains(v) {
            let k = choose|k: int| 0 <= k < after.len() && #[trigger] after[k]@ == v;
            if k < items.len() {
                assert(items[k]@ == v);
            }
        }
    }
    assert(members(after) =~= members(items).insert(x@));
}

/// A set holds what was put in and nothing else, lists it once each and from the
/// least up, and is within another exactly where the other holds all of it.
pub proof fn law_a_set_holds_what_was_put_in<T: SetItem>(
    start: OrderedSet<T>,
    items: Vec<T>,
    made: OrderedSet<T>,
    grown: &mut OrderedSet<T>,
    item: T,
    joined: &mut OrderedSet<T>,
    other: &OrderedSet<T>,
    held: bool,
    asked: &T,
    listed: &Vec<T>,
    within: bool,
    v: T::V,
)
    requires
        call_ensures(OrderedSet::<T>::new, (), start),
        call_ensures(OrderedSet::<T>::from_vec, (items,), made),
        call_ensures(OrderedSet::<T>::insert, (grown, item), ()),
        call_ensures(OrderedSet::<T>::extend, (joined, other), ()),
        call_ensures(OrderedSet::<T>::contains, (other, asked), held),
        call_ensures(OrderedSet::<T>::as_vec, (other,), listed),
        call_ensures(OrderedSet::<T>::is_subset, (&made, other), within),
    ensures
        !start@.contains(v),
        made@.contains(v) <==> exists|i: int| 0 <= i < items@.len() && (#[trigger] items@[i])@ == v,
        final(grown)@.contains(v) <==> v == item@ || old(grown)@.contains(v),
        final(joined)@.contains(v) <==> old(joined)@.contains(v) || other@.contains(v),
        held <==> other@.contains(asked@),
        other@.contains(v) <==> exists|i: int|
            0 <= i < listed@.len() && (#[trigger] listed@[i])@ == v,
        forall|i: int, j: int|
            0 <= i < j < listed@.len() ==> T::below(
                (#[trigger] listed@[i])@,
                (#[trigger] listed@[j])@,
            ),
        within <==> forall|x: T::V| #[trigger] made@.contains(x) ==> other@.contains(x),
{
    lemma_members_contains(items@, v);
    lemma_members_contains(listed@, v);
    assert forall|i: int, j: int| 0 <= i < j < listed@.len() implies T::below(
        (#[trigger] listed@[i])@,
        (#[trigger] listed@[j])@,
    ) by {
        assert(ascending(listed@));
        assert(views(listed@)[i] == listed@[i]@ && views(listed@)[j] == listed@[j]@);
    }
}

} // verus!
