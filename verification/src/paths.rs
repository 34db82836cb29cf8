//! Paths as text: components separated by `/`, with repeated separators and
//! inner `.` components ignored.

use vstd::prelude::*;
use vstd::string::*;

use crate::sets::views;
use crate::text::{lemma_split_concat, lemma_split_pieces, lemma_split_single, split, split_text, str_equal};

verus! {

/// A piece between separators that is a component of its own.
pub open spec fn is_component(piece: Seq<char>) -> bool {
    piece.len() > 0 && piece != "."@
}

/// The components among some pieces.
pub open spec fn components_among(pieces: Seq<Seq<char>>) -> Seq<Seq<char>>
    decreases pieces.len(),
{
    if pieces.len() == 0 {
        Seq::empty()
    } else {
        let rest = components_among(pieces.drop_last());
        if is_component(pieces.last()) {
            rest.push(pieces.last())
        } else {
            rest
        }
    }
}

/// The path starts at the root.
pub open spec fn is_absolute(path: Seq<char>) -> bool {
    path.len() > 0 && path[0] == '/'
}

/// The components of a path: `/` for the root of an absolute path, then the
/// names between the separators. Empty names do not count, and neither does
/// `.`, except at the very beginning of a relative path.
pub open spec fn components(path: Seq<char>) -> Seq<Seq<char>> {
    let pieces = split(path, '/');
    if is_absolute(path) {
        seq!["/"@] + components_among(pieces)
    } else if pieces[0] == "."@ {
        seq!["."@] + components_among(pieces)
    } else {
        components_among(pieces)
    }
}

/// The last component, where it is a name.
pub open spec fn file_name(path: Seq<char>) -> Option<Seq<char>> {
    let parts = components(path);
    if parts.len() == 0 || parts.last() == "/"@ || parts.last() == "."@ || parts.last() == ".."@ {
        None
    } else {
        Some(parts.last())
    }
}

/// `candidate` is `base` or lies below it, component by component.
pub open spec fn lies_within(candidate: Seq<char>, base: Seq<char>) -> bool {
    components(base).is_prefix_of(components(candidate))
}

/// One of the components climbs to a parent directory.
pub open spec fn has_parent_component(path: Seq<char>) -> bool {
    components(path).contains(".."@)
}

/// Whether the path starts at the root.
pub fn path_is_absolute(path: &str) -> (r: bool)
    ensures
        r == is_absolute(path@),
{
    if path.is_empty() {
        return false;
    }
    path.get_char(0) == '/'
}

/// The components of a path.
pub fn path_components(path: &str) -> (r: Vec<String>)
    ensures
        views(r@) == components(path@),
{
    let pieces: Vec<String> = split_text(path, '/');
    proof {
        lemma_split_pieces(path@, '/');
        assert(views(pieces@)[0] == pieces@[0]@);
    }
    let mut r: Vec<String> = Vec::new();
    let ghost mut head: Seq<Seq<char>> = Seq::empty();
    if path_is_absolute(path) {
        r.push("/".to_owned());
        proof {
            head = seq!["/"@];
        }
    } else if str_equal(pieces[0].as_str(), ".") {
        r.push(".".to_owned());
        proof {
            head = seq!["."@];
        }
    }
    assert(views(r@) =~= head);
    let mut i: usize = 0;
    assert(components_among(views(pieces@).take(0)) =~= Seq::empty());
    while i < pieces.len()
        invariant
            i <= pieces.len(),
            views(r@) =~= head + components_among(views(pieces@).take(i as int)),
        decreases pieces.len() - i,
    {
        let ghost before = views(r@);
        proof {
            let longer = views(pieces@).take(i + 1);
            assert(longer.drop_last() =~= views(pieces@).take(i as int));
            assert(longer.last() == pieces@[i as int]@);
        }
        if !pieces[i].as_str().is_empty() && !str_equal(pieces[i].as_str(), ".") {
            r.push(pieces[i].clone());
            assert(views(r@) =~= before.push(pieces@[i as int]@));
        }
        i = i + 1;
    }
    assert(views(pieces@).take(i as int) =~= views(pieces@));
    r
}

/// The last component of a path, where it is a name.
pub fn path_file_name(path: &str) -> (r: Option<String>)
    ensures
        match r {
            Some(name) => file_name(path@) == Some(name@),
            None => file_name(path@) is None,
        },
{
    let parts: Vec<String> = path_components(path);
    assert(views(parts@).len() == parts@.len());
    if parts.len() == 0 {
        return None;
    }
    let last: &String = &parts[parts.len() - 1];
    assert(last@ == components(path@).last());
    if str_equal(last.as_str(), "/") || str_equal(last.as_str(), ".") || str_equal(
        last.as_str(),
        "..",
    ) {
        None
    } else {
        Some(last.clone())
    }
}

/// Whether `candidate` is `base` or lies below it: by whole components, never
/// by a shared beginning of a name.
pub fn path_is_within(candidate: &str, base: &str) -> (r: bool)
    ensures
        r == lies_within(candidate@, base@),
{
    let c: Vec<String> = path_components(candidate);
    let b: Vec<String> = path_components(base);
    assert(views(c@).len() == c@.len() && views(b@).len() == b@.len());
    if b.len() > c.len() {
        return false;
    }
    let mut i: usize = 0;
    while i < b.len()
        invariant
            i <= b.len() <= c.len(),
            views(c@) == components(candidate@),
            views(b@) == components(base@),
            forall|k: int| 0 <= k < i ==> views(b@)[k] == views(c@)[k],
        decreases b.len() - i,
    {
        if !str_equal(b[i].as_str(), c[i].as_str()) {
            proof {
                assert(views(b@)[i as int] != views(c@)[i as int]);
                assert(views(c@).subrange(0, b@.len() as int)[i as int] == views(c@)[i as int]);
            }
            return false;
        }
        i = i + 1;
    }
    assert(views(b@) =~= views(c@).subrange(0, b@.len() as int));
    true
}

/// Whether one of the components climbs to a parent directory.
pub fn path_has_parent_component(path: &str) -> (r: bool)
    ensures
        r == has_parent_component(path@),
{
    let parts: Vec<String> = path_components(path);
    let mut i: usize = 0;
    while i < parts.len()
        invariant
            i <= parts.len(),
            views(parts@) == components(path@),
            forall|k: int| 0 <= k < i ==> (#[trigger] parts@[k])@ != ".."@,
        decreases parts.len() - i,
    {
        if str_equal(parts[i].as_str(), "..") {
            assert(views(parts@)[i as int] == ".."@);
            return true;
        }
        i = i + 1;
    }
    proof {
        assert forall|k: int| 0 <= k < components(path@).len() implies components(path@)[k]
            != ".."@ by {
            assert(views(parts@)[k] == parts@[k]@);
        }
    }
    false
}

/// The path of `name` inside the directory `base`.
pub open spec fn joined(base: Seq<char>, name: Seq<char>) -> Seq<char> {
    if base.len() == 0 || base.last() == '/' {
        base + name
    } else {
        base.push('/') + name
    }
}

/// The path of `name` inside the directory `base`.
pub fn join_path(base: &str, name: &str) -> (r: String)
    ensures
        r@ == joined(base@, name@),
{
    let n: usize = base.unicode_len();
    if n == 0 || base.get_char(n - 1) == '/' {
        base.to_owned().concat(name)
    } else {
        let mut r: String = base.to_owned();
        r.push('/');
        r.concat(name)
    }
}

/// A name that stands for one entry of a directory.
pub open spec fn is_entry_name(name: Seq<char>) -> bool {
    &&& is_component(name)
    &&& name != ".."@
    &&& forall|k: int| 0 <= k < name.len() ==> name[k] != '/'
}

proof fn lemma_components_among_concat(a: Seq<Seq<char>>, b: Seq<Seq<char>>)
    ensures
        components_among(a + b) == components_among(a) + components_among(b),
    decreases b.len(),
{
    if b.len() == 0 {
        assert(a + b =~= a);
        assert(components_among(a + b) =~= components_among(a) + components_among(b));
    } else {
        lemma_components_among_concat(a, b.drop_last());
        assert((a + b).drop_last() =~= a + b.drop_last());
        assert(components_among(a + b) =~= components_among(a) + components_among(b));
    }
}

/// Joining an entry name to a directory appends it as one component.
pub proof fn lemma_joined_components(base: Seq<char>, name: Seq<char>)
    requires
        base.len() > 0,
        is_entry_name(name),
    ensures
        components(joined(base, name)) == components(base).push(name),
{
    reveal_strlit("/");
    reveal_strlit(".");
    let whole = joined(base, name);
    let front = if base.last() == '/' {
        base.drop_last()
    } else {
        base
    };
    assert(whole =~= front.push('/') + name);
    lemma_split_concat(front, name, '/');
    lemma_split_single(name, '/');
    assert(components_among(seq![name]) =~= seq![name]) by {
        assert(seq![name].drop_last() =~= Seq::empty());
        assert(components_among(Seq::<Seq<char>>::empty()) =~= Seq::empty());
    }
    lemma_components_among_concat(split(front, '/'), seq![name]);
    if base.last() == '/' {
        assert(base =~= front.push('/') + Seq::<char>::empty());
        lemma_split_concat(front, Seq::empty(), '/');
        let none = split(Seq::<char>::empty(), '/');
        assert(none =~= seq![Seq::<char>::empty()]);
        assert(components_among(none) =~= Seq::empty()) by {
            assert(none.drop_last() =~= Seq::empty());
            assert(components_among(Seq::<Seq<char>>::empty()) =~= Seq::empty());
        }
        lemma_components_among_concat(split(front, '/'), none);
        assert(split(base, '/') =~= split(front, '/') + none);
    }
    lemma_split_pieces(front, '/');
    assert(components_among(split(whole, '/')) =~= components_among(split(base, '/')).push(name));
    assert(split(whole, '/')[0] == split(base, '/')[0]);
    assert(whole[0] == base[0]);
    assert(components(whole) =~= components(base).push(name));
}

/// What lies below a directory is found within it: joining an entry name never
/// leaves the directory.
pub proof fn law_joining_a_name_stays_within(base: Seq<char>, name: Seq<char>)
    requires
        base.len() > 0,
        is_entry_name(name),
    ensures
        lies_within(joined(base, name), base),
{
    lemma_joined_components(base, name);
    assert(components(base) =~= components(joined(base, name)).subrange(
        0,
        components(base).len() as int,
    ));
}

/// Containment of paths is reflexive and transitive.
pub proof fn law_containment_is_a_preorder(a: Seq<char>, b: Seq<char>, c: Seq<char>)
    ensures
        lies_within(a, a),
        lies_within(a, b) && lies_within(b, c) ==> lies_within(a, c),
{
    assert(components(a) =~= components(a).subrange(0, components(a).len() as int));
    if lies_within(a, b) && lies_within(b, c) {
        assert(components(c) =~= components(a).subrange(0, components(c).len() as int)) by {
            assert forall|k: int| 0 <= k < components(c).len() implies components(c)[k]
                == components(a)[k] by {
                assert(components(b).subrange(0, components(c).len() as int)[k]
                    == components(b)[k]);
                assert(components(a).subrange(0, components(b).len() as int)[k]
                    == components(a)[k]);
            }
        }
    }
}

/// What the components of a text are, read from its last separator: an empty
/// name and a `.` behind a separator add nothing, any other name adds itself; a
/// separator in front of everything is the root; and a text without a separator
/// is one name, or none where it is empty.
pub proof fn law_components_are_the_names_between_separators(path: Seq<char>, name: Seq<char>)
    requires
        !name.contains('/'),
    ensures
        components(name) == (if name.len() == 0 {
            Seq::<Seq<char>>::empty()
        } else {
            seq![name]
        }),
        components(path.push('/') + name) == (if path.len() == 0 {
            seq![seq!['/']]
        } else {
            components(path)
        }) + (if name.len() == 0 || name == seq!['.'] {
            Seq::<Seq<char>>::empty()
        } else {
            seq![name]
        }),
{
    reveal_strlit("/");
    reveal_strlit(".");
    assert("/"@ =~= seq!['/']);
    assert("."@ =~= seq!['.']);
    lemma_split_single(name, '/');
    lemma_split_concat(path, name, '/');
    lemma_among_single(name);
    lemma_components_among_concat(split(path, '/'), seq![name]);
    lemma_split_pieces(path, '/');
    let whole = path.push('/') + name;
    if name.len() > 0 {
        assert(name.contains(name[0]));
    }
    assert(components(name) =~= (if name.len() == 0 {
        Seq::<Seq<char>>::empty()
    } else {
        seq![name]
    }));
    if path.len() == 0 {
        assert(path =~= Seq::empty());
        assert(split(path, '/') =~= seq![Seq::<char>::empty()]);
        lemma_among_single(Seq::empty());
        assert(whole[0] == '/');
    } else {
        assert(whole[0] == path[0]);
        assert(split(whole, '/')[0] == split(path, '/')[0]);
    }
    assert(components(whole) =~= (if path.len() == 0 {
        seq![seq!['/']]
    } else {
        components(path)
    }) + (if name.len() == 0 || name == seq!['.'] {
        Seq::<Seq<char>>::empty()
    } else {
        seq![name]
    }));
}

proof fn lemma_among_single(piece: Seq<char>)
    ensures
        components_among(seq![piece]) == (if is_component(piece) {
            seq![piece]
        } else {
            Seq::<Seq<char>>::empty()
        }),
{
    assert(seq![piece].drop_last() =~= Seq::<Seq<char>>::empty());
    assert(components_among(Seq::<Seq<char>>::empty()) =~= Seq::<Seq<char>>::empty());
    assert(components_among(seq![piece]) =~= (if is_component(piece) {
        seq![piece]
    } else {
        Seq::<Seq<char>>::empty()
    }));
}

/// The component can stand behind another: it is a name, without a separator,
/// and not `.`.
pub open spec fn follows(part: Seq<char>) -> bool {
    part.len() > 0 && part != seq!['.'] && !part.contains('/')
}

proof fn lemma_among_follows(pieces: Seq<Seq<char>>)
    requires
        forall|i: int, k: int|
            0 <= i < pieces.len() && 0 <= k < (#[trigger] pieces[i]).len() ==> #[trigger]
            pieces[i][k] != '/',
    ensures
        forall|i: int|
            0 <= i < components_among(pieces).len() ==> follows(
                #[trigger] components_among(pieces)[i],
            ),
    decreases pieces.len(),
{
    reveal_strlit(".");
    assert("."@ =~= seq!['.']);
    if pieces.len() > 0 {
        let shorter = pieces.drop_last();
        assert forall|i: int, k: int|
            0 <= i < shorter.len() && 0 <= k < (#[trigger] shorter[i]).len() implies #[trigger]
        shorter[i][k] != '/' by {
            assert(shorter[i] == pieces[i]);
        }
        lemma_among_follows(shorter);
        let last = pieces.last();
        assert forall|k: int| 0 <= k < last.len() implies last[k] != '/' by {
            assert(pieces[pieces.len() - 1][k] != '/');
        }
        assert(!last.contains('/'));
        let r = components_among(pieces);
        assert forall|i: int| 0 <= i < r.len() implies follows(#[trigger] r[i]) by {
            if i < components_among(shorter).len() {
                assert(r[i] == components_among(shorter)[i]);
            }
        }
    }
}

/// The first component of a path is the root or a name; every later one is a
/// name that is not `.`. No name holds a separator, and none is empty.
pub proof fn law_components_are_names(path: Seq<char>, i: int)
    requires
        0 <= i < components(path).len(),
    ensures
        components(path)[i].len() > 0,
        components(path)[i].contains('/') ==> i == 0 && components(path)[i] == seq!['/'],
        i > 0 ==> components(path)[i] != seq!['.'],
        components(path)[0] == seq!['/'] <==> path.len() > 0 && path[0] == '/',
{
    reveal_strlit("/");
    reveal_strlit(".");
    assert("/"@ =~= seq!['/']);
    assert("."@ =~= seq!['.']);
    lemma_split_pieces(path, '/');
    lemma_among_follows(split(path, '/'));
    let among = components_among(split(path, '/'));
    if is_absolute(path) {
        if i > 0 {
            assert(components(path)[i] == among[i - 1]);
        }
    } else if split(path, '/')[0] == "."@ {
        if i > 0 {
            assert(components(path)[i] == among[i - 1]);
        }
        assert(components(path)[0] == seq!['.']);
        assert(seq!['.'][0] == '.' && seq!['/'][0] == '/');
    } else {
        assert(components(path)[i] == among[i]);
        if components(path)[0] == seq!['/'] {
            assert(seq!['/'][0] == '/');
            assert(among[0].contains('/'));
        }
    }
    if components(path)[i] == seq!['.'] {
        assert(!seq!['.'].contains('/'));
    }
}

/// A path within another is that path with names behind it: one text is found
/// within another exactly where its components are the first of the other's.
/// What is written behind a separator lies within; what merely begins with the
/// same characters does not.
pub proof fn law_containment_is_by_whole_names(
    candidate: &str,
    base: &str,
    r: bool,
    path: Seq<char>,
    name: Seq<char>,
    more: Seq<char>,
)
    requires
        call_ensures(path_is_within, (candidate, base), r),
        path.len() > 0,
        follows(name),
        more.len() > 0,
        !more.contains('/'),
    ensures
        r <==> components(base@).len() <= components(candidate@).len() && forall|k: int|
            0 <= k < components(base@).len() ==> components(base@)[k] == components(
                candidate@,
            )[k],
        lies_within(path.push('/') + name, path),
        !lies_within(path.push('/') + (name + more), path.push('/') + name),
        !lies_within(path, path.push('/') + name),
{
    reveal_strlit(".");
    assert("."@ =~= seq!['.']);
    let (b, c) = (components(base@), components(candidate@));
    if b.len() <= c.len() && (forall|k: int| 0 <= k < b.len() ==> b[k] == c[k]) {
        assert(b =~= c.subrange(0, b.len() as int));
    }
    if lies_within(candidate@, base@) {
        assert forall|k: int| 0 <= k < b.len() implies b[k] == c[k] by {
            assert(c.subrange(0, b.len() as int)[k] == c[k]);
        }
    }
    let longer = name + more;
    assert(!longer.contains('/')) by {
        if longer.contains('/') {
            let k = choose|k: int| 0 <= k < longer.len() && longer[k] == '/';
            if k < name.len() {
                assert(name.contains(name[k]));
            } else {
                assert(more.contains(more[k - name.len()]));
            }
        }
    }
    assert(longer != seq!['.']) by {
        assert(longer.len() >= 2);
    }
    law_components_are_the_names_between_separators(path, name);
    law_components_are_the_names_between_separators(path, longer);
    let p = components(path);
    assert(p =~= p.push(name).subrange(0, p.len() as int));
    assert(components(path.push('/') + name) =~= p.push(name));
    assert(components(path.push('/') + longer) =~= p.push(longer));
    if lies_within(path.push('/') + longer, path.push('/') + name) {
        assert(p.push(longer).subrange(0, p.len() as int + 1)[p.len() as int] == longer);
        assert(name.len() == longer.len());
    }
}

/// The last name of a path, where it has one: what stands behind its last
/// separator, unless that is a `..`; separators and `.` at the end do not
/// count.
pub proof fn law_a_file_name_stands_last(path: Seq<char>, name: Seq<char>)
    requires
        !name.contains('/'),
    ensures
        follows(name) && name != seq!['.', '.'] ==> file_name(name) == Some(name) && file_name(
            path.push('/') + name,
        ) == Some(name),
        name == seq!['.', '.'] ==> file_name(name) is None && file_name(path.push('/') + name)
            is None,
        path.len() > 0 && (name.len() == 0 || name == seq!['.']) ==> file_name(
            path.push('/') + name,
        ) == file_name(path),
        path.len() == 0 && (name.len() == 0 || name == seq!['.']) ==> file_name(
            path.push('/') + name,
        ) is None,
{
    reveal_strlit("/");
    reveal_strlit(".");
    reveal_strlit("..");
    assert("/"@ =~= seq!['/']);
    assert("."@ =~= seq!['.']);
    assert(".."@ =~= seq!['.', '.']);
    law_components_are_the_names_between_separators(path, name);
    if follows(name) && name == seq!['/'] {
        assert(name[0] == '/');
        assert(name.contains(name[0]));
    }
    if name.len() == 0 || name == seq!['.'] {
        let p = if path.len() == 0 {
            seq![seq!['/']]
        } else {
            components(path)
        };
        assert(p + Seq::<Seq<char>>::empty() =~= p);
    } else {
        let p = if path.len() == 0 {
            seq![seq!['/']]
        } else {
            components(path)
        };
        assert((p + seq![name]).last() == name);
    }
}

/// A path below a directory, written behind a separator.
pub proof fn lemma_components_behind(base: Seq<char>, parts: Seq<Seq<char>>, rel: Seq<char>)
    requires
        base.len() > 0,
        forall|i: int| 0 <= i < parts.len() ==> follows(#[trigger] parts[i]),
        rel == crate::context::slash_joined(parts),
    ensures
        components(base.push('/') + rel) == components(base) + parts,
    decreases parts.len(),
{
    reveal_strlit("/");
    assert("/"@ =~= seq!['/']);
    if parts.len() == 0 {
        law_components_are_the_names_between_separators(base, rel);
        assert(components(base) + parts =~= components(base));
    } else if parts.len() == 1 {
        law_components_are_the_names_between_separators(base, parts[0]);
        assert(parts =~= seq![parts[0]]);
    } else {
        let shorter = parts.drop_last();
        assert forall|i: int| 0 <= i < shorter.len() implies follows(#[trigger] shorter[i]) by {
            assert(shorter[i] == parts[i]);
        }
        let front = crate::context::slash_joined(shorter);
        lemma_components_behind(base, shorter, front);
        let last = parts.last();
        assert(follows(parts[parts.len() - 1]));
        law_components_are_the_names_between_separators(base.push('/') + front, last);
        assert(base.push('/') + rel =~= (base.push('/') + front).push('/') + last);
        assert(components(base) + parts =~= components(base) + shorter + seq![last]);
    }
}

/// Components written with separators between them are read back.
pub proof fn lemma_components_read_back(parts: Seq<Seq<char>>)
    requires
        parts.len() > 0 ==> parts[0] == seq!['/'] || (parts[0].len() > 0 && !parts[0].contains(
            '/',
        )),
        forall|i: int| 0 < i < parts.len() ==> follows(#[trigger] parts[i]),
    ensures
        components(crate::context::slash_joined(parts)) == parts,
    decreases parts.len(),
{
    reveal_strlit("/");
    assert("/"@ =~= seq!['/']);
    let none = Seq::<char>::empty();
    if parts.len() == 0 {
        law_components_are_the_names_between_separators(none, none);
        assert(parts =~= Seq::<Seq<char>>::empty());
    } else if parts.len() == 1 {
        if parts[0] == seq!['/'] {
            law_components_are_the_names_between_separators(none, none);
            assert(none.push('/') + none =~= seq!['/']);
            assert(parts =~= seq![seq!['/']] + Seq::<Seq<char>>::empty());
        } else {
            law_components_are_the_names_between_separators(none, parts[0]);
            assert(parts =~= seq![parts[0]]);
        }
    } else {
        let shorter = parts.drop_last();
        assert(shorter[0] == parts[0]);
        assert forall|i: int| 0 < i < shorter.len() implies follows(#[trigger] shorter[i]) by {
            assert(shorter[i] == parts[i]);
        }
        lemma_components_read_back(shorter);
        let front = crate::context::slash_joined(shorter);
        let last = parts.last();
        assert(follows(parts[parts.len() - 1]));
        if front.len() == 0 {
            law_components_are_the_names_between_separators(none, front);
            assert(false);
        }
        law_components_are_the_names_between_separators(front, last);
        assert(crate::context::slash_joined(parts) =~= front.push('/') + last);
        assert(parts =~= shorter + seq![last]);
    }
}

/// An entry of a directory has the components of the directory and its name.
pub proof fn lemma_entry_components(base: Seq<char>, name: Seq<char>)
    requires
        base.len() > 0,
        follows(name),
    ensures
        components(joined(base, name)) == components(base).push(name),
{
    reveal_strlit("/");
    reveal_strlit(".");
    assert("/"@ =~= seq!['/']);
    assert("."@ =~= seq!['.']);
    if base.last() == '/' {
        let front = base.drop_last();
        assert(base =~= front.push('/') + Seq::<char>::empty());
        law_components_are_the_names_between_separators(front, Seq::empty());
        law_components_are_the_names_between_separators(front, name);
        assert(joined(base, name) =~= front.push('/') + name);
    } else {
        law_components_are_the_names_between_separators(base, name);
        assert(joined(base, name) =~= base.push('/') + name);
    }
    assert(components(joined(base, name)) =~= components(base).push(name));
}

/// Joining puts one separator between a directory and a name, unless the
/// directory already ends with one or is empty; so the result names the entry
/// in that directory.
pub proof fn law_joining_names_the_entry(base: &str, name: &str, r: String)
    requires
        call_ensures(join_path, (base, name), r),
    ensures
        r@ == (if base@.len() == 0 || base@[base@.len() - 1] == '/' {
            base@
        } else {
            base@ + seq!['/']
        }) + name@,
        base@.len() > 0 && follows(name@) ==> components(r@) == components(base@).push(name@),
{
    if base@.len() > 0 && follows(name@) {
        lemma_entry_components(base@, name@);
    }
    assert(r@ =~= (if base@.len() == 0 || base@[base@.len() - 1] == '/' {
        base@
    } else {
        base@ + seq!['/']
    }) + name@);
}

} // verus!
