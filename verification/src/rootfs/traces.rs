//! How the facts of a host are read, and how paths are placed and ordered.

use vstd::prelude::*;

use crate::paths::{
    components, components_among, follows, is_absolute, is_component, joined,
    law_components_are_the_names_between_separators, lemma_entry_components,
};
use crate::rootfs::host::{
    fact_of, line_item, line_items, look_up, look_up_trace, trace_items, trace_of, LoaderTrace,
    PathFact, TraceItem, TraceView,
};
use crate::rootfs::order::{compare_paths, parts_below};
use crate::rootfs::{materialized_at, CacheStep, RootfsCache};
use crate::sets::views;
use crate::text::laws::lemma_find_text;
use crate::text::{
    after_text, before_text, find_text, is_space, lemma_split_concat, lemma_split_single, occurs_at,
    split, str_below, stripped, stripped_end, stripped_start, trim_start,
};

verus! {

proof fn lemma_strip(pad: Seq<char>, text: Seq<char>)
    requires
        forall|k: int| 0 <= k < pad.len() ==> is_space(#[trigger] pad[k]),
        text.len() > 0,
        !is_space(text[0]),
        !is_space(text.last()),
    ensures
        stripped(pad + text) == text,
    decreases pad.len(),
{
    if pad.len() == 0 {
        assert(pad + text =~= text);
        assert(stripped_start(text) == text);
        assert(stripped_end(text) == text);
    } else {
        let rest = pad.subrange(1, pad.len() as int);
        let whole = pad + text;
        assert forall|k: int| 0 <= k < rest.len() implies is_space(#[trigger] rest[k]) by {
            assert(rest[k] == pad[k + 1]);
        }
        assert(whole[0] == pad[0]);
        assert(whole.subrange(1, whole.len() as int) =~= rest + text);
        lemma_strip(rest, text);
    }
}

proof fn lemma_divided(head: Seq<char>, needle: Seq<char>, tail: Seq<char>, mark: int)
    requires
        0 <= mark < needle.len(),
        !head.contains(needle[mark]),
        forall|k: int| 0 <= k < mark ==> #[trigger] needle[k] != needle[mark],
    ensures
        after_text(head + needle + tail, needle) == Some(tail),
        before_text(head + needle + tail, needle) == head,
{
    let s = head + needle + tail;
    lemma_find_text(s, needle);
    assert(s.subrange(head.len() as int, head.len() as int + needle.len()) =~= needle);
    assert(occurs_at(needle, s, head.len() as int));
    let i = find_text(s, needle)->0;
    assert(find_text(s, needle) is Some);
    if i < head.len() {
        assert(s.subrange(i, i + needle.len())[mark] == s[i + mark]);
        if i + mark < head.len() {
            assert(head[i + mark] == needle[mark]);
            assert(head.contains(head[i + mark]));
        } else {
            let k = i + mark - head.len();
            assert(s[i + mark] == needle[k]);
        }
    }
    assert(i == head.len());
    assert(s.subrange(0, i) =~= head);
    assert(s.subrange(i + needle.len(), s.len() as int) =~= tail);
}

proof fn lemma_undivided(s: Seq<char>, needle: Seq<char>, mark: int)
    requires
        0 <= mark < needle.len(),
        !s.contains(needle[mark]),
    ensures
        after_text(s, needle) is None,
        before_text(s, needle) == s,
{
    lemma_find_text(s, needle);
    if let Some(i) = find_text(s, needle) {
        assert(s.subrange(i, i + needle.len())[mark] == s[i + mark]);
        assert(s.contains(s[i + mark]));
    }
}

/// A line `name => /path (address)` of a loader trace names the library at that
/// path, a line `/path (address)` the loader, and a line whose target is no
/// absolute path names nothing; white space before a line does not count. A
/// trace of several lines names what its lines name, in their order.
pub proof fn law_a_trace_names_what_is_loaded(
    pad: Seq<char>,
    name: Seq<char>,
    path: Seq<char>,
    address: Seq<char>,
    library: &str,
    libraries: Vec<TraceItem>,
    loader: &str,
    loaders: Vec<TraceItem>,
    both: &str,
    all: Vec<TraceItem>,
)
    requires
        forall|k: int| 0 <= k < pad.len() ==> is_space(#[trigger] pad[k]),
        !pad.contains('\n') && !name.contains('\n') && !path.contains('\n') && !address.contains(
            '\n',
        ),
        !name.contains('>') && !path.contains('>') && !address.contains('>'),
        !path.contains('('),
        name.len() > 0 && !is_space(name[0]),
        path.len() > 0 && !is_space(path[0]) && !is_space(path.last()),
        library@ == pad + (name + seq![' ', '=', '>', ' '] + (path + seq![' ', '('] + address.push(
            ')',
        ))),
        call_ensures(trace_items, (library,), libraries),
        loader@ == pad + (path + seq![' ', '('] + address.push(')')),
        call_ensures(trace_items, (loader,), loaders),
        both@ == library@.push('\n') + loader@,
        call_ensures(trace_items, (both,), all),
    ensures
        path[0] == '/' ==> libraries@.len() == 1 && libraries@[0]@ == TraceView::Library(path)
            && loaders@.len() == 1 && loaders@[0]@ == TraceView::Loader(path),
        path[0] != '/' ==> libraries@.len() == 0 && loaders@.len() == 0,
        views(all@) == views(libraries@) + views(loaders@),
{
    reveal_strlit(" => ");
    reveal_strlit(" (");
    let arrow = seq![' ', '=', '>', ' '];
    let open = seq![' ', '('];
    assert(" => "@ =~= arrow);
    assert(" ("@ =~= open);
    let end = address.push(')');
    let target = path + open + end;
    let text = name + arrow + target;
    assert(!end.contains('>')) by {
        if end.contains('>') {
            let k = choose|k: int| 0 <= k < end.len() && end[k] == '>';
            assert(address.contains(address[k]));
        }
    }
    assert(!target.contains('>')) by {
        if target.contains('>') {
            let k = choose|k: int| 0 <= k < target.len() && target[k] == '>';
            if k < path.len() {
                assert(path.contains(path[k]));
            } else if k >= path.len() + 2 {
                assert(end.contains(end[k - path.len() - 2]));
            }
        }
    }
    assert(text.last() == ')' && target.last() == ')');
    assert(!is_space(')'));
    lemma_strip(pad, text);
    lemma_strip(pad, target);
    assert(text[0] == name[0]);
    assert(target[0] == path[0]);
    lemma_divided(name, arrow, target, 2);
    lemma_undivided(target, arrow, 2);
    lemma_divided(path, open, end, 1);
    lemma_strip(Seq::empty(), path);
    assert(Seq::<char>::empty() + path =~= path);
    assert(is_absolute(path) == (path[0] == '/'));
    assert(is_absolute(target) == (path[0] == '/'));
    assert(!end.contains('\n')) by {
        if end.contains('\n') {
            let k = choose|k: int| 0 <= k < end.len() && end[k] == '\n';
            assert(address.contains(address[k]));
        }
    }
    assert(!target.contains('\n')) by {
        lemma_two(path + open, end);
        lemma_two(path, open);
    }
    assert(!text.contains('\n')) by {
        lemma_two(name + arrow, target);
        lemma_two(name, arrow);
    }
    lemma_two(pad, text);
    lemma_two(pad, target);
    lemma_one_line(library@);
    lemma_one_line(loader@);
    lemma_split_concat(library@, loader@, '\n');
    lemma_items_concat(split(library@, '\n'), split(loader@, '\n'));
    assert(views(libraries@).len() == libraries@.len());
    assert(views(loaders@).len() == loaders@.len());
    if path[0] == '/' {
        assert(views(libraries@) == seq![TraceView::Library(path)]);
        assert(views(libraries@)[0] == libraries@[0]@);
        assert(views(loaders@) == seq![TraceView::Loader(path)]);
        assert(views(loaders@)[0] == loaders@[0]@);
    }
}

proof fn lemma_two(a: Seq<char>, b: Seq<char>)
    ensures
        !a.contains('\n') && !b.contains('\n') ==> !(a + b).contains('\n'),
{
    let s = a + b;
    if s.contains('\n') {
        let k = choose|k: int| 0 <= k < s.len() && s[k] == '\n';
        if k < a.len() {
            assert(a.contains(a[k]));
        } else {
            assert(b.contains(b[k - a.len()]));
        }
    }
}

proof fn lemma_one_line(line: Seq<char>)
    requires
        !line.contains('\n'),
    ensures
        line_items(split(line, '\n')) == (match line_item(line) {
            Some(item) => seq![item],
            None => Seq::<TraceView>::empty(),
        }),
{
    assert forall|k: int| 0 <= k < line.len() implies line[k] != '\n' by {
        assert(line.contains(line[k]));
    }
    lemma_split_single(line, '\n');
    let lines = seq![line];
    assert(lines.drop_last() =~= Seq::<Seq<char>>::empty());
    assert(lines.last() == line);
    assert(line_items(lines.drop_last()) =~= Seq::<TraceView>::empty());
    if let Some(item) = line_item(line) {
        assert(Seq::<TraceView>::empty().push(item) =~= seq![item]);
    }
}

proof fn lemma_items_concat(a: Seq<Seq<char>>, b: Seq<Seq<char>>)
    ensures
        line_items(a + b) == line_items(a) + line_items(b),
    decreases b.len(),
{
    if b.len() == 0 {
        assert(a + b =~= a);
        assert(line_items(a) + line_items(b) =~= line_items(a));
    } else {
        assert((a + b).drop_last() =~= a + b.drop_last());
        assert((a + b).last() == b.last());
        lemma_items_concat(a, b.drop_last());
        if let Some(item) = line_item(b.last()) {
            assert((line_items(a) + line_items(b.drop_last())).push(item) =~= line_items(a)
                + line_items(b.drop_last()).push(item));
        }
    }
}

/// A fact is looked up by its exact path, and the first one on it counts; where
/// no fact is on the path, none is found.
pub proof fn law_the_first_fact_on_a_path_counts(
    facts: &Vec<PathFact>,
    path: &str,
    r: Option<&PathFact>,
    i: int,
)
    requires
        call_ensures(look_up, (facts, path), r),
    ensures
        0 <= i < facts@.len() && facts@[i].path@ == path@ && (forall|k: int|
            0 <= k < i ==> (#[trigger] facts@[k]).path@ != path@) ==> r == Some(&facts@[i]),
        (forall|k: int| 0 <= k < facts@.len() ==> (#[trigger] facts@[k]).path@ != path@) ==> r
            is None,
{
    if 0 <= i < facts@.len() && facts@[i].path@ == path@ && (forall|k: int|
        0 <= k < i ==> (#[trigger] facts@[k]).path@ != path@) {
        lemma_first_fact(facts@, path@, i);
    }
    if forall|k: int| 0 <= k < facts@.len() ==> (#[trigger] facts@[k]).path@ != path@ {
        lemma_no_fact(facts@, path@);
    }
}

proof fn lemma_first_fact(facts: Seq<PathFact>, path: Seq<char>, i: int)
    requires
        0 <= i < facts.len(),
        facts[i].path@ == path,
        forall|k: int| 0 <= k < i ==> (#[trigger] facts[k]).path@ != path,
    ensures
        fact_of(facts, path) == Some(facts[i]),
    decreases facts.len(),
{
    if i > 0 {
        let rest = facts.subrange(1, facts.len() as int);
        assert(rest[i - 1] == facts[i]);
        lemma_first_fact(rest, path, i - 1);
    }
}

proof fn lemma_no_fact(facts: Seq<PathFact>, path: Seq<char>)
    requires
        forall|k: int| 0 <= k < facts.len() ==> (#[trigger] facts[k]).path@ != path,
    ensures
        fact_of(facts, path) is None,
    decreases facts.len(),
{
    if facts.len() > 0 {
        lemma_no_fact(facts.subrange(1, facts.len() as int), path);
    }
}

/// A path of a plan stands in a tree below the tree's own directory, under the
/// same names. A cached tree is reused only where it is complete, and an
/// unfinished one is cleared first; it lies in the cache under its key.
pub proof fn law_a_path_keeps_its_names_in_the_tree(
    dest: &str,
    src: &str,
    r: String,
    complete: bool,
    there: bool,
    step: CacheStep,
    root: String,
    cache: RootfsCache,
    key: &str,
    place: String,
)
    requires
        call_ensures(materialized_at, (dest, src), r),
        call_ensures(RootfsCache::step, (complete, there), step),
        call_ensures(RootfsCache::new, (root,), cache),
        call_ensures(RootfsCache::place_of, (&cache, key), place),
    ensures
        dest@.len() > 0 && src@.len() > 0 && src@[0] == '/' ==> components(r@) == components(dest@)
            + components(src@).subrange(1, components(src@).len() as int),
        step == CacheStep::Reuse <==> complete,
        step == CacheStep::ClearAndBuild <==> !complete && there,
        root@.len() > 0 && follows(key@) ==> components(place@) == components(root@).push(key@),
{
    if root@.len() > 0 && follows(key@) {
        lemma_entry_components(root@, key@);
    }
    if dest@.len() > 0 && src@.len() > 0 && src@[0] == '/' {
        let rest = trim_start(src@, '/');
        lemma_without_slashes(src@);
        lemma_below_base(dest@, rest);
        reveal_strlit("/");
        assert("/"@ =~= seq!['/']);
        let among = components_among(split(src@, '/'));
        assert((seq!["/"@] + among).subrange(1, among.len() as int + 1) =~= among);
    }
}

proof fn lemma_among_concat(a: Seq<Seq<char>>, b: Seq<Seq<char>>)
    ensures
        components_among(a + b) == components_among(a) + components_among(b),
    decreases b.len(),
{
    if b.len() == 0 {
        assert(a + b =~= a);
        assert(components_among(a) + components_among(b) =~= components_among(a));
    } else {
        lemma_among_concat(a, b.drop_last());
        assert((a + b).drop_last() =~= a + b.drop_last());
        assert((a + b).last() == b.last());
        if is_component(b.last()) {
            assert((components_among(a) + components_among(b.drop_last())).push(b.last())
                =~= components_among(a) + components_among(b.drop_last()).push(b.last()));
        }
    }
}

proof fn lemma_without_slashes(s: Seq<char>)
    ensures
        components_among(split(trim_start(s, '/'), '/')) == components_among(split(s, '/')),
    decreases s.len(),
{
    if s.len() > 0 && s[0] == '/' {
        let rest = s.subrange(1, s.len() as int);
        lemma_without_slashes(rest);
        let none = Seq::<char>::empty();
        assert(s =~= none.push('/') + rest);
        lemma_split_concat(none, rest, '/');
        lemma_split_single(none, '/');
        lemma_among_concat(seq![none], split(rest, '/'));
        assert(seq![none].drop_last() =~= Seq::<Seq<char>>::empty());
        assert(seq![none].last() == none);
        reveal_with_fuel(components_among, 2);
        assert(components_among(seq![none]) =~= Seq::<Seq<char>>::empty());
        assert(Seq::<Seq<char>>::empty() + components_among(split(rest, '/'))
            =~= components_among(split(rest, '/')));
    }
}

proof fn lemma_below_base(base: Seq<char>, rest: Seq<char>)
    requires
        base.len() > 0,
    ensures
        components(joined(base, rest)) == components(base) + components_among(split(rest, '/')),
{
    let tail = components_among(split(rest, '/'));
    let front = if base.last() == '/' {
        base.drop_last()
    } else {
        base
    };
    let whole = front.push('/') + rest;
    assert(joined(base, rest) =~= whole);
    lemma_split_concat(front, rest, '/');
    lemma_among_concat(split(front, '/'), split(rest, '/'));
    crate::text::lemma_split_pieces(front, '/');
    assert(whole[0] == (if front.len() > 0 {
        front[0]
    } else {
        '/'
    }));
    assert(split(whole, '/')[0] == split(front, '/')[0]);
    let head = components_among(split(front, '/'));
    if base.last() == '/' {
        let none = Seq::<char>::empty();
        assert(base =~= front.push('/') + none);
        lemma_split_concat(front, none, '/');
        lemma_split_single(none, '/');
        lemma_among_concat(split(front, '/'), seq![none]);
        assert(seq![none].drop_last() =~= Seq::<Seq<char>>::empty());
        reveal_with_fuel(components_among, 2);
        assert(components_among(seq![none]) =~= Seq::<Seq<char>>::empty());
        assert(head + Seq::<Seq<char>>::empty() =~= head);
        assert(components_among(split(base, '/')) == head);
        assert(split(base, '/')[0] == split(front, '/')[0]);
        assert(base[0] == whole[0]);
    }
    assert(seq!["/"@] + (head + tail) =~= seq!["/"@] + head + tail);
    assert(seq!["."@] + (head + tail) =~= seq!["."@] + head + tail);
}

/// Paths are ordered by their components from the left: a path comes before what
/// lies below it, and of two entries of one directory the one whose name comes
/// first in its bytes; the same components are the same path.
pub proof fn law_paths_are_ordered_name_by_name(
    a: &str,
    b: &str,
    r: Option<bool>,
    dir: Seq<char>,
    x: Seq<char>,
    y: Seq<char>,
)
    requires
        call_ensures(compare_paths, (a, b), r),
        dir.len() > 0,
        follows(x) && x != seq!['.', '.'],
        follows(y) && y != seq!['.', '.'],
    ensures
        r is None <==> components(a@) == components(b@),
        a@ == dir && b@ == dir.push('/') + x ==> r == Some(true),
        b@ == dir && a@ == dir.push('/') + x ==> r == Some(false),
        a@ == dir.push('/') + x && b@ == dir.push('/') + y && x != y ==> r == Some(
            str_below(x, y),
        ),
{
    reveal_strlit("/");
    reveal_strlit(".");
    reveal_strlit("..");
    assert("/"@ =~= seq!['/']);
    assert("."@ =~= seq!['.']);
    assert(".."@ =~= seq!['.', '.']);
    law_components_are_the_names_between_separators(dir, x);
    law_components_are_the_names_between_separators(dir, y);
    let d = components(dir);
    let none = Seq::<Seq<char>>::empty();
    assert(x != seq!['/']) by {
        if x == seq!['/'] {
            assert(x[0] == '/');
            assert(x.contains(x[0]));
        }
    }
    assert(y != seq!['/']) by {
        if y == seq!['/'] {
            assert(y[0] == '/');
            assert(y.contains(y[0]));
        }
    }
    lemma_common_front(d, none, seq![x]);
    lemma_common_front(d, seq![x], none);
    lemma_common_front(d, seq![x], seq![y]);
    assert(d + none =~= d);
    assert(d.push(x) =~= d + seq![x]);
    if d + seq![x] == d {
        assert((d + seq![x]).len() == d.len());
    }
    if d + seq![x] == d + seq![y] {
        assert((d + seq![x])[d.len() as int] == x && (d + seq![y])[d.len() as int] == y);
    }
}

proof fn lemma_common_front(front: Seq<Seq<char>>, a: Seq<Seq<char>>, b: Seq<Seq<char>>)
    ensures
        parts_below(front + a, front + b) == parts_below(a, b),
    decreases front.len(),
{
    if front.len() == 0 {
        assert(front + a =~= a && front + b =~= b);
    } else {
        let rest = front.subrange(1, front.len() as int);
        lemma_common_front(rest, a, b);
        assert((front + a).subrange(1, (front + a).len() as int) =~= rest + a);
        assert((front + b).subrange(1, (front + b).len() as int) =~= rest + b);
        assert((front + a)[0] == front[0] && (front + b)[0] == front[0]);
    }
}

/// What a program needs is what the first trace of it says, and nothing where it
/// was not traced.
pub proof fn law_a_program_needs_what_its_first_trace_says(
    traces: &Vec<LoaderTrace>,
    program: &str,
    r: Vec<TraceItem>,
    i: int,
    output: &str,
    items: Vec<TraceItem>,
)
    requires
        call_ensures(look_up_trace, (traces, program), r),
        call_ensures(trace_items, (output,), items),
    ensures
        0 <= i < traces@.len() && traces@[i].program@ == program@ && traces@[i].output@ == output@
            && (forall|k: int| 0 <= k < i ==> (#[trigger] traces@[k]).program@ != program@)
            ==> views(r@) == views(items@),
        (forall|k: int| 0 <= k < traces@.len() ==> (#[trigger] traces@[k]).program@ != program@)
            ==> r@.len() == 0,
{
    if 0 <= i < traces@.len() && traces@[i].program@ == program@ && (forall|k: int|
        0 <= k < i ==> (#[trigger] traces@[k]).program@ != program@) {
        lemma_first_trace(traces@, program@, i);
    }
    if forall|k: int| 0 <= k < traces@.len() ==> (#[trigger] traces@[k]).program@ != program@ {
        lemma_no_trace(traces@, program@);
        assert(views(r@).len() == r@.len());
    }
}

proof fn lemma_first_trace(traces: Seq<LoaderTrace>, program: Seq<char>, i: int)
    requires
        0 <= i < traces.len(),
        traces[i].program@ == program,
        forall|k: int| 0 <= k < i ==> (#[trigger] traces[k]).program@ != program,
    ensures
        trace_of(traces, program) == line_items(split(traces[i].output@, '\n')),
    decreases traces.len(),
{
    if i > 0 {
        let rest = traces.subrange(1, traces.len() as int);
        assert(rest[i - 1] == traces[i]);
        lemma_first_trace(rest, program, i - 1);
    }
}

proof fn lemma_no_trace(traces: Seq<LoaderTrace>, program: Seq<char>)
    requires
        forall|k: int| 0 <= k < traces.len() ==> (#[trigger] traces[k]).program@ != program,
    ensures
        trace_of(traces, program).len() == 0,
    decreases traces.len(),
{
    if traces.len() > 0 {
        lemma_no_trace(traces.subrange(1, traces.len() as int), program);
    }
}

} // verus!
