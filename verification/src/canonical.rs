//! Resolving a path whose last components do not exist yet: the deepest
//! existing ancestor is located by the filesystem, and the missing names are
//! attached to its location one by one. No missing name climbs.

use vstd::prelude::*;
use vstd::string::*;

use crate::context::{copy_strings, slash_joined};
use crate::paths::{components, components_among, is_component, is_entry_name, joined, lies_within};
use crate::paths::{join_path, lemma_joined_components, path_components};
use crate::sets::{lemma_views_push, lemma_views_subrange, views};
use crate::text::{lemma_split_pieces, split, str_equal};

verus! {

/// The search for the deepest existing ancestor of a path.
#[derive(Debug, PartialEq, Eq)]
pub struct CanonicalWalk {
    path: String,
    existing: Vec<String>,
    tail: Vec<String>,
}

/// The model of [`CanonicalWalk`].
pub ghost struct WalkView {
    /// The path that is to be resolved.
    pub path: Seq<char>,
    /// The components of the ancestor that is asked about next.
    pub existing: Seq<Seq<char>>,
    /// The names below that ancestor, deepest first.
    pub tail: Seq<Seq<char>>,
}

/// What comes after the answer whether an ancestor exists.
#[derive(Debug, Clone, Copy, PartialEq, Eq, Structural)]
pub enum WalkStep {
    /// Ask about the next ancestor.
    Probe,
    /// The ancestor exists: locate it and attach the missing names.
    Locate,
    /// No ancestor of the path can exist.
    NoAncestor,
    /// The path ends in a component that is no name.
    NoName,
}

impl WalkStep {
    /// Why the path has no location, where the search ends without one.
    pub fn refusal(self) -> (r: Option<&'static str>)
        ensures
            match self {
                WalkStep::Probe | WalkStep::Locate => r is None,
                WalkStep::NoAncestor => r matches Some(t) && t@
                    == "no existing ancestor to canonicalize"@,
                WalkStep::NoName => r matches Some(t) && t@
                    == "path has no resolvable existing ancestor"@,
            },
    {
        match self {
            WalkStep::Probe | WalkStep::Locate => None,
            WalkStep::NoAncestor => Some("no existing ancestor to canonicalize"),
            WalkStep::NoName => Some("path has no resolvable existing ancestor"),
        }
    }
}

/// A component that names an entry of a directory.
pub open spec fn names_an_entry(component: Seq<char>) -> bool {
    component != "/"@ && component != "."@ && component != ".."@
}

/// The step after the answer `exists` about the ancestor `existing`.
pub open spec fn walk_step(existing: Seq<Seq<char>>, exists: bool) -> WalkStep {
    if exists {
        WalkStep::Locate
    } else if existing.len() == 0 || existing.last() == "/"@ {
        WalkStep::NoAncestor
    } else if !names_an_entry(existing.last()) {
        WalkStep::NoName
    } else {
        WalkStep::Probe
    }
}

/// The text of a path with the given components.
pub open spec fn rendered(parts: Seq<Seq<char>>) -> Seq<char> {
    if parts.len() > 0 && parts[0] == "/"@ {
        "/"@ + slash_joined(parts.subrange(1, parts.len() as int))
    } else {
        slash_joined(parts)
    }
}

/// The names, deepest first, attached below `base`.
pub open spec fn attached(base: Seq<char>, tail: Seq<Seq<char>>) -> Seq<char>
    decreases tail.len(),
{
    if tail.len() == 0 {
        base
    } else {
        joined(attached(base, tail.subrange(1, tail.len() as int)), tail[0])
    }
}

impl View for CanonicalWalk {
    type V = WalkView;

    closed spec fn view(&self) -> WalkView {
        WalkView { path: self.path@, existing: views(self.existing@), tail: views(self.tail@) }
    }
}

impl WalkView {
    /// The ancestor and the names below it make up the path, and each of the
    /// names is one entry of a directory.
    pub open spec fn consistent(self) -> bool {
        &&& self.existing + self.tail.reverse() == components(self.path)
        &&& forall|i: int|
            0 <= i < self.tail.len() ==> is_entry_name(#[trigger] self.tail[i])
    }
}

proof fn lemma_components_among_pieces(pieces: Seq<Seq<char>>, i: int)
    requires
        0 <= i < components_among(pieces).len(),
    ensures
        is_component(components_among(pieces)[i]),
        exists|j: int| 0 <= j < pieces.len() && pieces[j] == components_among(pieces)[i],
    decreases pieces.len(),
{
    let rest = components_among(pieces.drop_last());
    if i < rest.len() {
        lemma_components_among_pieces(pieces.drop_last(), i);
        let j = choose|j: int|
            0 <= j < pieces.drop_last().len() && pieces.drop_last()[j] == rest[i];
        assert(pieces[j] == components_among(pieces)[i]);
    } else {
        assert(pieces[pieces.len() - 1] == components_among(pieces)[i]);
    }
}

/// A component that is neither the root nor a dot name is the name of an
/// entry.
proof fn lemma_component_is_entry_name(path: Seq<char>, i: int)
    requires
        0 <= i < components(path).len(),
        names_an_entry(components(path)[i]),
    ensures
        is_entry_name(components(path)[i]),
{
    let pieces = split(path, '/');
    let among = components_among(pieces);
    let name = components(path)[i];
    let k = components(path).len() - among.len();
    assert(name == among[i - k]);
    lemma_components_among_pieces(pieces, i - k);
    lemma_split_pieces(path, '/');
}

impl CanonicalWalk {
    #[verifier::type_invariant]
    spec fn well_formed(self) -> bool {
        self@.consistent()
    }

    /// Start with the path itself.
    pub fn start(path: &str) -> (r: Self)
        ensures
            r@ == (WalkView {
                path: path@,
                existing: components(path@),
                tail: Seq::<Seq<char>>::empty(),
            }),
    {
        let existing: Vec<String> = path_components(path);
        let tail: Vec<String> = Vec::new();
        proof {
            assert(views(tail@) =~= Seq::<Seq<char>>::empty());
            assert(Seq::<Seq<char>>::empty().reverse() =~= Seq::empty());
            assert(views(existing@) + Seq::<Seq<char>>::empty() =~= components(path@));
        }
        CanonicalWalk { path: path.to_owned(), existing, tail }
    }

    /// The ancestor that is asked about next: at first the path as given.
    pub fn existing_path(&self) -> (r: String)
        ensures
            self@.tail.len() == 0 ==> r@ == self@.path,
            self@.tail.len() > 0 ==> r@ == rendered(self@.existing),
    {
        assert(views(self.tail@).len() == self.tail@.len());
        if self.tail.len() == 0 {
            return self.path.clone();
        }
        let ghost parts = views(self.existing@);
        assert(parts.len() == self.existing@.len());
        let rooted: bool = self.existing.len() > 0 && str_equal(self.existing[0].as_str(), "/");
        let from: usize = if rooted {
            1
        } else {
            0
        };
        let mut r: String = String::new();
        let mut i: usize = from;
        assert(parts.subrange(from as int, from as int) =~= Seq::empty());
        while i < self.existing.len()
            invariant
                from <= i <= self.existing.len(),
                parts == views(self.existing@),
                r@ == slash_joined(parts.subrange(from as int, i as int)),
            decreases self.existing.len() - i,
        {
            proof {
                let longer = parts.subrange(from as int, i + 1);
                assert(longer.drop_last() =~= parts.subrange(from as int, i as int));
                assert(longer.last() == self.existing@[i as int]@);
            }
            if i > from {
                r = r.concat("/").concat(self.existing[i].as_str());
            } else {
                r = self.existing[i].clone();
            }
            i = i + 1;
        }
        if rooted {
            "/".to_owned().concat(r.as_str())
        } else {
            assert(parts.subrange(0, parts.len() as int) =~= parts);
            r
        }
    }

    /// Take the answer whether the ancestor exists. Where it does not, its
    /// last name moves to the names to be attached, and its parent is asked
    /// about next.
    pub fn step(&mut self, exists: bool) -> (r: WalkStep)
        ensures
            r == walk_step(old(self)@.existing, exists),
            r == WalkStep::Probe ==> final(self)@ == (WalkView {
                path: old(self)@.path,
                existing: old(self)@.existing.drop_last(),
                tail: old(self)@.tail.push(old(self)@.existing.last()),
            }),
            r != WalkStep::Probe ==> final(self)@ == old(self)@,
    {
        proof {
            use_type_invariant(&*self);
            assert(views(self.existing@).len() == self.existing@.len());
        }
        if exists {
            return WalkStep::Locate;
        }
        if self.existing.len() == 0 {
            return WalkStep::NoAncestor;
        }
        let ghost before = self@;
        let last: String = self.existing[self.existing.len() - 1].clone();
        assert(last@ == before.existing.last());
        if str_equal(last.as_str(), "/") {
            return WalkStep::NoAncestor;
        }
        if str_equal(last.as_str(), ".") || str_equal(last.as_str(), "..") {
            return WalkStep::NoName;
        }
        let mut existing: Vec<String> = copy_strings(&self.existing);
        existing.pop();
        let mut tail: Vec<String> = copy_strings(&self.tail);
        tail.push(last);
        proof {
            lemma_views_subrange(self.existing@, 0, self.existing@.len() - 1);
            lemma_views_push(self.tail@, last);
        }
        proof {
            assert(views(existing@) =~= before.existing.drop_last());
            assert(views(tail@) =~= before.tail.push(before.existing.last()));
            let n = before.existing.len() - 1;
            assert(before.existing[n] == (before.existing + before.tail.reverse())[n]);
            lemma_component_is_entry_name(before.path, n);
            assert(before.tail.push(before.existing.last()).reverse() =~= seq![
                before.existing.last(),
            ] + before.tail.reverse());
            assert(before.existing.drop_last() + before.tail.push(before.existing.last()).reverse()
                =~= before.existing + before.tail.reverse());
        }
        *self = CanonicalWalk { path: self.path.clone(), existing, tail };
        WalkStep::Probe
    }

    /// The missing names attached below the location of the ancestor.
    pub fn finish(&self, base: &str) -> (r: String)
        ensures
            r@ == attached(base@, self@.tail),
    {
        let mut r: String = base.to_owned();
        let mut i: usize = self.tail.len();
        let ghost tail = views(self.tail@);
        assert(tail.len() == self.tail@.len());
        assert(tail.subrange(i as int, tail.len() as int) =~= Seq::empty());
        while i > 0
            invariant
                i <= self.tail@.len(),
                tail == views(self.tail@),
                r@ == attached(base@, tail.subrange(i as int, tail.len() as int)),
            decreases i,
        {
            i = i - 1;
            proof {
                let longer = tail.subrange(i as int, tail.len() as int);
                assert(longer.subrange(1, longer.len() as int) =~= tail.subrange(
                    i + 1,
                    tail.len() as int,
                ));
                assert(longer[0] == self.tail@[i as int]@);
            }
            r = join_path(r.as_str(), self.tail[i].as_str());
        }
        assert(tail.subrange(0, tail.len() as int) =~= tail);
        r
    }
}

/// A resolved path lies within the location of its deepest existing ancestor,
/// and below it come exactly the missing names: attaching them never climbs
/// out.
pub proof fn law_a_resolved_path_stays_below_its_ancestor(base: Seq<char>, tail: Seq<Seq<char>>)
    requires
        base.len() > 0,
        forall|i: int| 0 <= i < tail.len() ==> is_entry_name(#[trigger] tail[i]),
    ensures
        attached(base, tail).len() > 0,
        components(attached(base, tail)) == components(base) + tail.reverse(),
        lies_within(attached(base, tail), base),
    decreases tail.len(),
{
    if tail.len() == 0 {
        assert(tail.reverse() =~= Seq::empty());
        assert(components(base) + tail.reverse() =~= components(base));
    } else {
        let rest = tail.subrange(1, tail.len() as int);
        assert forall|i: int| 0 <= i < rest.len() implies is_entry_name(#[trigger] rest[i]) by {
            assert(rest[i] == tail[i + 1]);
        }
        law_a_resolved_path_stays_below_its_ancestor(base, rest);
        assert(is_entry_name(tail[0]));
        lemma_joined_components(attached(base, rest), tail[0]);
        assert(tail.reverse() =~= rest.reverse().push(tail[0]));
        assert(components(base) + tail.reverse() =~= (components(base) + rest.reverse()).push(
            tail[0],
        ));
    }
    assert(components(base) =~= components(attached(base, tail)).subrange(
        0,
        components(base).len() as int,
    ));
}

/// The search ends: each further question is about an ancestor with one
/// component less, and the names found missing with the ancestor always make
/// up the path.
pub proof fn law_the_walk_descends_and_loses_nothing(before: WalkView)
    requires
        before.consistent(),
        walk_step(before.existing, false) == WalkStep::Probe,
    ensures
        ({
            let after = WalkView {
                path: before.path,
                existing: before.existing.drop_last(),
                tail: before.tail.push(before.existing.last()),
            };
            &&& after.existing.len() < before.existing.len()
            &&& after.consistent()
        }),
{
    let n = before.existing.len() - 1;
    assert(before.existing[n] == (before.existing + before.tail.reverse())[n]);
    lemma_component_is_entry_name(before.path, n);
    assert(before.tail.push(before.existing.last()).reverse() =~= seq![before.existing.last()]
        + before.tail.reverse());
    assert(before.existing.drop_last() + before.tail.push(before.existing.last()).reverse()
        =~= before.existing + before.tail.reverse());
}

/// The search asks about a path, then about each parent in turn, until one
/// exists; it gives up at the root or an empty path, and at a component that is
/// `.` or `..`. A name that it passes is kept, and nothing else changes.
pub proof fn law_the_search_climbs_name_by_name(
    path: &str,
    fresh: CanonicalWalk,
    walk: &mut CanonicalWalk,
    exists_now: bool,
    r: WalkStep,
)
    requires
        call_ensures(CanonicalWalk::start, (path,), fresh),
        call_ensures(CanonicalWalk::step, (walk, exists_now), r),
    ensures
        fresh@.path == path@ && fresh@.existing == components(path@) && fresh@.tail.len() == 0,
        r == WalkStep::Locate <==> exists_now,
        ({
            let parts = old(walk)@.existing;
            &&& r == WalkStep::NoAncestor <==> !exists_now && (parts.len() == 0 || parts.last()
                == seq!['/'])
            &&& r == WalkStep::NoName <==> !exists_now && parts.len() > 0 && (parts.last()
                == seq!['.'] || parts.last() == seq!['.', '.'])
            &&& r != WalkStep::Probe ==> final(walk)@ == old(walk)@
            &&& r == WalkStep::Probe ==> final(walk)@.path == old(walk)@.path
                && final(walk)@.existing.push(parts.last()) == parts && final(walk)@.tail
                == old(walk)@.tail.push(parts.last())
        }),
{
    reveal_strlit("/");
    reveal_strlit(".");
    reveal_strlit("..");
    assert("/"@ =~= seq!['/']);
    assert("."@ =~= seq!['.']);
    assert(".."@ =~= seq!['.', '.']);
    let parts = old(walk)@.existing;
    if r == WalkStep::Probe {
        assert(parts.drop_last().push(parts.last()) =~= parts);
    }
    if parts.len() > 0 && parts.last() == seq!['/'] {
        assert(parts.last()[0] == '/');
        assert(seq!['.'][0] == '.' && seq!['.', '.'][0] == '.');
    }
}

/// What is asked about is the ancestor, component by component; and what comes
/// out is the location of the ancestor with exactly the missing names behind it,
/// in their order. With the path that was asked for: its own components, where
/// its ancestor's location is the ancestor itself.
pub proof fn law_a_location_is_the_ancestor_and_the_missing_names(
    walk: &CanonicalWalk,
    asked: String,
    base: &str,
    r: String,
)
    requires
        walk@.consistent(),
        call_ensures(CanonicalWalk::existing_path, (walk,), asked),
        call_ensures(CanonicalWalk::finish, (walk, base), r),
        base@.len() > 0,
    ensures
        components(asked@) == walk@.existing,
        components(r@) == components(base@) + walk@.tail.reverse(),
        components(base@) == walk@.existing ==> components(r@) == components(walk@.path),
{
    law_a_resolved_path_stays_below_its_ancestor(base@, walk@.tail);
    if walk@.tail.len() == 0 {
        assert(walk@.tail.reverse() =~= Seq::empty());
        assert(walk@.existing + walk@.tail.reverse() =~= walk@.existing);
    } else {
        let parts = walk@.existing;
        let all = components(walk@.path);
        assert forall|i: int| 0 <= i < parts.len() implies parts[i] == all[i] by {
            assert((parts + walk@.tail.reverse())[i] == parts[i]);
        }
        assert forall|i: int| 0 <= i < parts.len() implies {
            &&& (#[trigger] parts[i]).len() > 0
            &&& parts[i].contains('/') ==> i == 0 && parts[i] == seq!['/']
            &&& i > 0 ==> parts[i] != seq!['.']
        } by {
            crate::paths::law_components_are_names(walk@.path, i);
        }
        lemma_rendered(parts);
    }
}

proof fn lemma_rendered(parts: Seq<Seq<char>>)
    requires
        forall|i: int| 0 <= i < parts.len() ==> {
            &&& (#[trigger] parts[i]).len() > 0
            &&& parts[i].contains('/') ==> i == 0 && parts[i] == seq!['/']
            &&& i > 0 ==> parts[i] != seq!['.']
        },
    ensures
        components(rendered(parts)) == parts,
{
    reveal_strlit("/");
    assert("/"@ =~= seq!['/']);
    if parts.len() > 0 && parts[0] == "/"@ {
        let rest = parts.subrange(1, parts.len() as int);
        assert forall|i: int| 0 <= i < rest.len() implies crate::paths::follows(
            #[trigger] rest[i],
        ) by {
            assert(rest[i] == parts[i + 1]);
        }
        lemma_rooted(rest);
        assert(parts =~= seq![seq!['/']] + rest);
    } else {
        assert forall|i: int| 0 < i < parts.len() implies crate::paths::follows(
            #[trigger] parts[i],
        ) by {}
        crate::paths::lemma_components_read_back(parts);
    }
}

proof fn lemma_rooted(rest: Seq<Seq<char>>)
    requires
        forall|i: int| 0 <= i < rest.len() ==> crate::paths::follows(#[trigger] rest[i]),
    ensures
        components(seq!['/'] + slash_joined(rest)) == seq![seq!['/']] + rest,
    decreases rest.len(),
{
    reveal_strlit("/");
    assert("/"@ =~= seq!['/']);
    let none = Seq::<char>::empty();
    if rest.len() == 0 {
        crate::paths::law_components_are_the_names_between_separators(none, none);
        assert(none.push('/') + none =~= seq!['/'] + slash_joined(rest));
        assert(rest =~= Seq::empty());
    } else if rest.len() == 1 {
        crate::paths::law_components_are_the_names_between_separators(none, rest[0]);
        assert(none.push('/') + rest[0] =~= seq!['/'] + slash_joined(rest));
        assert(seq![seq!['/']] + seq![rest[0]] =~= seq![seq!['/']] + rest);
    } else {
        let shorter = rest.drop_last();
        assert forall|i: int| 0 <= i < shorter.len() implies crate::paths::follows(
            #[trigger] shorter[i],
        ) by {
            assert(shorter[i] == rest[i]);
        }
        lemma_rooted(shorter);
        let front = seq!['/'] + slash_joined(shorter);
        let last = rest[rest.len() - 1];
        crate::paths::law_components_are_the_names_between_separators(front, last);
        assert(front.push('/') + last =~= seq!['/'] + slash_joined(rest));
        assert(seq![seq!['/']] + shorter + seq![last] =~= seq![seq!['/']] + rest);
    }
}

} // verus!
