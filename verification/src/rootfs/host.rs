//! What the host says: the plain facts that a plan is made from.

use vstd::prelude::*;
use vstd::string::*;

use crate::paths::{components, is_absolute, joined, join_path, path_components, path_is_absolute};
use crate::rootfs::order::{insert_path, inserted};
use crate::sets::views;
use crate::text::{
    after_text, before_text, chars_of, find_from, split, split_text, str_equal, strip_text,
    stripped, text_after, text_before,
};

verus! {

/// What a path is.
#[derive(Debug, Clone, Copy, PartialEq, Eq, Structural)]
pub enum PathKind {
    /// A regular file.
    File,
    /// A directory.
    Directory,
    /// Anything else that exists.
    Other,
}

/// A path that exists.
#[derive(Debug, PartialEq, Eq)]
pub struct PathFact {
    /// The path.
    pub path: String,
    /// What it is.
    pub kind: PathKind,
    /// Its location without links, where it has one.
    pub canonical: Option<String>,
}

/// An entry of a directory.
#[derive(Debug, PartialEq, Eq)]
pub struct DirEntry {
    /// The name.
    pub name: String,
    /// Whether it is a directory.
    pub is_dir: bool,
    /// Its location without links, where it has one.
    pub canonical: Option<String>,
}

/// The entries of a directory.
#[derive(Debug, PartialEq, Eq)]
pub struct Listing {
    /// The directory.
    pub dir: String,
    /// Its entries.
    pub entries: Vec<DirEntry>,
}

/// What the loader says that a program needs.
#[derive(Debug, PartialEq, Eq)]
pub struct LoaderTrace {
    /// The location of the program.
    pub program: String,
    /// The output of `ldd` on it.
    pub output: String,
}

/// The facts of a host. What is not among them does not exist.
#[derive(Debug, PartialEq, Eq)]
pub struct HostFacts {
    /// The search path of the environment, if it is set.
    pub search_path: Option<String>,
    /// The paths that exist.
    pub paths: Vec<PathFact>,
    /// The directories that were listed.
    pub listings: Vec<Listing>,
    /// The programs that were traced.
    pub traces: Vec<LoaderTrace>,
}

/// What is known of a path: the first fact on it.
pub open spec fn fact_of(facts: Seq<PathFact>, path: Seq<char>) -> Option<PathFact>
    decreases facts.len(),
{
    if facts.len() == 0 {
        None
    } else if facts[0].path@ == path {
        Some(facts[0])
    } else {
        fact_of(facts.subrange(1, facts.len() as int), path)
    }
}

/// The path exists and is a directory.
pub open spec fn is_directory(facts: Seq<PathFact>, path: Seq<char>) -> bool {
    fact_of(facts, path) matches Some(fact) && fact.kind == PathKind::Directory
}

/// The path exists.
pub open spec fn is_present(facts: Seq<PathFact>, path: Seq<char>) -> bool {
    fact_of(facts, path) is Some
}

/// What is known of a path.
pub fn look_up<'a>(facts: &'a Vec<PathFact>, path: &str) -> (r: Option<&'a PathFact>)
    ensures
        match fact_of(facts@, path@) {
            Some(fact) => r matches Some(f) && *f == fact,
            None => r is None,
        },
{
    let mut i: usize = 0;
    assert(facts@.subrange(0, facts@.len() as int) =~= facts@);
    while i < facts.len()
        invariant
            i <= facts.len(),
            fact_of(facts@, path@) == fact_of(
                facts@.subrange(i as int, facts@.len() as int),
                path@,
            ),
        decreases facts.len() - i,
    {
        proof {
            let rest = facts@.subrange(i as int, facts@.len() as int);
            assert(rest[0] == facts@[i as int]);
            assert(rest.subrange(1, rest.len() as int) =~= facts@.subrange(
                i + 1,
                facts@.len() as int,
            ));
        }
        if str_equal(facts[i].path.as_str(), path) {
            return Some(&facts[i]);
        }
        i = i + 1;
    }
    None
}

/// The listing of a directory: the first one of it.
pub open spec fn listing_of(listings: Seq<Listing>, dir: Seq<Seq<char>>) -> Option<Listing>
    decreases listings.len(),
{
    if listings.len() == 0 {
        None
    } else if components(listings[0].dir@) == dir {
        Some(listings[0])
    } else {
        listing_of(listings.subrange(1, listings.len() as int), dir)
    }
}

fn same_parts(a: &Vec<String>, b: &Vec<String>) -> (r: bool)
    ensures
        r == (views(a@) == views(b@)),
{
    assert(views(a@).len() == a@.len() && views(b@).len() == b@.len());
    if a.len() != b.len() {
        return false;
    }
    let mut i: usize = 0;
    while i < a.len()
        invariant
            i <= a.len() == b.len(),
            forall|k: int| 0 <= k < i ==> views(a@)[k] == views(b@)[k],
        decreases a.len() - i,
    {
        assert(views(a@)[i as int] == a@[i as int]@ && views(b@)[i as int] == b@[i as int]@);
        if !str_equal(a[i].as_str(), b[i].as_str()) {
            return false;
        }
        i = i + 1;
    }
    assert(views(a@) =~= views(b@));
    true
}

/// The listing of the directory with these components.
pub fn look_up_listing<'a>(listings: &'a Vec<Listing>, dir: &Vec<String>) -> (r: Option<&'a Listing>)
    ensures
        match listing_of(listings@, views(dir@)) {
            Some(listing) => r matches Some(l) && *l == listing,
            None => r is None,
        },
{
    let mut i: usize = 0;
    assert(listings@.subrange(0, listings@.len() as int) =~= listings@);
    while i < listings.len()
        invariant
            i <= listings.len(),
            listing_of(listings@, views(dir@)) == listing_of(
                listings@.subrange(i as int, listings@.len() as int),
                views(dir@),
            ),
        decreases listings.len() - i,
    {
        proof {
            let rest = listings@.subrange(i as int, listings@.len() as int);
            assert(rest[0] == listings@[i as int]);
            assert(rest.subrange(1, rest.len() as int) =~= listings@.subrange(
                i + 1,
                listings@.len() as int,
            ));
        }
        if same_parts(&path_components(listings[i].dir.as_str()), dir) {
            return Some(&listings[i]);
        }
        i = i + 1;
    }
    None
}

/// The pieces that are not empty.
pub open spec fn nonempty(pieces: Seq<Seq<char>>) -> Seq<Seq<char>>
    decreases pieces.len(),
{
    if pieces.len() == 0 {
        Seq::empty()
    } else {
        let rest = nonempty(pieces.drop_last());
        if pieces.last().len() == 0 {
            rest
        } else {
            rest.push(pieces.last())
        }
    }
}

/// Where a bare name is searched for: the directories of the search path, or
/// the fallback where it names none.
pub open spec fn searched(search_path: Option<Seq<char>>, fallback: Seq<Seq<char>>) -> Seq<
    Seq<char>,
> {
    match search_path {
        None => fallback,
        Some(path) => {
            let dirs = nonempty(split(path, ':'));
            if dirs.len() == 0 {
                fallback
            } else {
                dirs
            }
        },
    }
}

/// The view of an optional text.
pub open spec fn text_view(text: Option<String>) -> Option<Seq<char>> {
    match text {
        Some(t) => Some(t@),
        None => None,
    }
}

/// Where a bare name is searched for.
pub fn search_dirs(search_path: &Option<String>, fallback: &Vec<String>) -> (r: Vec<String>)
    ensures
        views(r@) == searched(text_view(*search_path), views(fallback@)),
{
    if let Some(path) = search_path {
        let pieces: Vec<String> = split_text(path.as_str(), ':');
        let ghost all = views(pieces@);
        let mut dirs: Vec<String> = Vec::new();
        let mut i: usize = 0;
        assert(all.len() == pieces@.len());
        assert(all.take(0) =~= Seq::empty());
        assert(views(dirs@) =~= nonempty(all.take(0)));
        while i < pieces.len()
            invariant
                i <= pieces.len(),
                all == views(pieces@),
                all.len() == pieces@.len(),
                views(dirs@) == nonempty(all.take(i as int)),
            decreases pieces.len() - i,
        {
            proof {
                let longer = all.take(i + 1);
                assert(longer.drop_last() =~= all.take(i as int));
                assert(longer.last() == pieces@[i as int]@);
            }
            if !pieces[i].as_str().is_empty() {
                let ghost before = dirs@;
                dirs.push(pieces[i].clone());
                assert(views(dirs@) =~= views(before).push(pieces@[i as int]@));
            }
            i = i + 1;
        }
        assert(all.take(i as int) =~= all);
        assert(views(dirs@).len() == dirs@.len());
        if dirs.len() > 0 {
            return dirs;
        }
    }
    crate::context::copy_strings(fallback)
}

/// The places where a granted entry can be: a path stands for itself, a bare
/// name is searched for.
pub open spec fn candidates(entry: Seq<char>, dirs: Seq<Seq<char>>) -> Seq<Seq<char>> {
    if entry.contains('/') {
        seq![entry]
    } else {
        dirs.map_values(|dir: Seq<char>| joined(dir, entry))
    }
}

/// The places where a granted entry can be, in order.
pub fn program_candidates(entry: &str, dirs: &Vec<String>) -> (r: Vec<String>)
    ensures
        views(r@) == candidates(entry@, views(dirs@)),
{
    let chars: Vec<char> = chars_of(entry);
    let at: usize = find_from(&chars, '/', 0);
    let mut r: Vec<String> = Vec::new();
    if at < chars.len() {
        assert(entry@[at as int] == '/');
        r.push(entry.to_owned());
        assert(views(r@) =~= candidates(entry@, views(dirs@)));
        return r;
    }
    assert(!entry@.contains('/'));
    let mut i: usize = 0;
    let ghost all = candidates(entry@, views(dirs@));
    assert(views(r@) =~= all.take(0));
    while i < dirs.len()
        invariant
            i <= dirs.len(),
            !entry@.contains('/'),
            all == candidates(entry@, views(dirs@)),
            all.len() == dirs@.len(),
            views(r@) == all.take(i as int),
        decreases dirs.len() - i,
    {
        let ghost before = r@;
        r.push(join_path(dirs[i].as_str(), entry));
        proof {
            assert(views(dirs@)[i as int] == dirs@[i as int]@);
            assert(all[i as int] == joined(dirs@[i as int]@, entry@));
            assert(views(r@) =~= views(before).push(all[i as int]));
            assert(all.take(i + 1) =~= all.take(i as int).push(all[i as int]));
        }
        i = i + 1;
    }
    assert(all.take(i as int) =~= all);
    r
}

/// The location of the first candidate that is a file.
pub open spec fn first_file(places: Seq<Seq<char>>, facts: Seq<PathFact>) -> Option<Seq<char>>
    decreases places.len(),
{
    if places.len() == 0 {
        None
    } else {
        match fact_of(facts, places[0]) {
            Some(fact) => if fact.kind == PathKind::File {
                text_view(fact.canonical)
            } else {
                first_file(places.subrange(1, places.len() as int), facts)
            },
            None => first_file(places.subrange(1, places.len() as int), facts),
        }
    }
}

/// The location of the program that a granted entry names.
pub open spec fn program_location(entry: Seq<char>, fallback: Seq<Seq<char>>, host: HostFacts) -> Option<
    Seq<char>,
> {
    first_file(candidates(entry, searched(text_view(host.search_path), fallback)), host.paths@)
}

/// The location of the program that a granted entry names, if it names one.
pub fn resolve_program(entry: &str, fallback: &Vec<String>, host: &HostFacts) -> (r: Option<String>)
    ensures
        match program_location(entry@, views(fallback@), *host) {
            Some(location) => r matches Some(l) && l@ == location,
            None => r is None,
        },
{
    let dirs: Vec<String> = search_dirs(&host.search_path, fallback);
    let places: Vec<String> = program_candidates(entry, &dirs);
    let ghost q = views(places@);
    let mut i: usize = 0;
    assert(q.len() == places@.len());
    assert(q.subrange(0, q.len() as int) =~= q);
    while i < places.len()
        invariant
            i <= places.len(),
            q == views(places@),
            q.len() == places@.len(),
            program_location(entry@, views(fallback@), *host) == first_file(
                q.subrange(i as int, q.len() as int),
                host.paths@,
            ),
        decreases places.len() - i,
    {
        proof {
            let rest = q.subrange(i as int, q.len() as int);
            assert(rest[0] == places@[i as int]@);
            assert(rest.subrange(1, rest.len() as int) =~= q.subrange(i + 1, q.len() as int));
        }
        if let Some(fact) = look_up(&host.paths, places[i].as_str()) {
            if fact.kind == PathKind::File {
                return match &fact.canonical {
                    Some(c) => Some(c.clone()),
                    None => None,
                };
            }
        }
        i = i + 1;
    }
    None
}

/// What one line of a loader trace names.
#[derive(Debug, PartialEq, Eq)]
pub enum TraceItem {
    /// A shared library, by the name under which the loader opens it.
    Library(String),
    /// The loader itself.
    Loader(String),
}

/// The model of [`TraceItem`].
pub ghost enum TraceView {
    Library(Seq<char>),
    Loader(Seq<char>),
}

impl View for TraceItem {
    type V = TraceView;

    open spec fn view(&self) -> TraceView {
        match self {
            TraceItem::Library(path) => TraceView::Library(path@),
            TraceItem::Loader(path) => TraceView::Loader(path@),
        }
    }
}

/// What a line names: `name => /path (address)` a library, `/path (address)`
/// the loader, anything else nothing.
pub open spec fn line_item(line: Seq<char>) -> Option<TraceView> {
    let text = stripped(line);
    match after_text(text, " => "@) {
        Some(rest) => {
            let path = stripped(before_text(before_text(rest, " => "@), " ("@));
            if is_absolute(path) {
                Some(TraceView::Library(path))
            } else {
                None
            }
        },
        None => if is_absolute(text) {
            Some(TraceView::Loader(stripped(before_text(text, " ("@))))
        } else {
            None
        },
    }
}

/// What the lines name, in order.
pub open spec fn line_items(lines: Seq<Seq<char>>) -> Seq<TraceView>
    decreases lines.len(),
{
    if lines.len() == 0 {
        Seq::empty()
    } else {
        let rest = line_items(lines.drop_last());
        match line_item(lines.last()) {
            Some(item) => rest.push(item),
            None => rest,
        }
    }
}

fn trace_line(line: &str) -> (r: Option<TraceItem>)
    ensures
        match line_item(line@) {
            Some(item) => r matches Some(i) && i@ == item,
            None => r is None,
        },
{
    let text: String = strip_text(line);
    match text_after(text.as_str(), " => ") {
        Some(rest) => {
            let target: String = text_before(rest.as_str(), " => ");
            let path: String = strip_text(text_before(target.as_str(), " (").as_str());
            if path_is_absolute(path.as_str()) {
                Some(TraceItem::Library(path))
            } else {
                None
            }
        },
        None => {
            if path_is_absolute(text.as_str()) {
                Some(TraceItem::Loader(strip_text(text_before(text.as_str(), " (").as_str())))
            } else {
                None
            }
        },
    }
}

/// What the output of `ldd` names, in order.
pub fn trace_items(output: &str) -> (r: Vec<TraceItem>)
    ensures
        views(r@) == line_items(split(output@, '\n')),
{
    let lines: Vec<String> = split_text(output, '\n');
    let ghost all = views(lines@);
    let mut r: Vec<TraceItem> = Vec::new();
    let mut i: usize = 0;
    assert(all.len() == lines@.len());
    assert(views(r@) =~= line_items(all.take(0)));
    while i < lines.len()
        invariant
            i <= lines.len(),
            all == views(lines@),
            all.len() == lines@.len(),
            views(r@) == line_items(all.take(i as int)),
        decreases lines.len() - i,
    {
        proof {
            let longer = all.take(i + 1);
            assert(longer.drop_last() =~= all.take(i as int));
            assert(longer.last() == lines@[i as int]@);
        }
        if let Some(item) = trace_line(lines[i].as_str()) {
            let ghost before = r@;
            r.push(item);
            assert(views(r@) =~= views(before).push(item@));
        }
        i = i + 1;
    }
    assert(all.take(i as int) =~= all);
    r
}

/// The output of `ldd` on a program: the first trace of it, if any.
pub open spec fn trace_of(traces: Seq<LoaderTrace>, program: Seq<char>) -> Seq<TraceView>
    decreases traces.len(),
{
    if traces.len() == 0 {
        Seq::empty()
    } else if traces[0].program@ == program {
        line_items(split(traces[0].output@, '\n'))
    } else {
        trace_of(traces.subrange(1, traces.len() as int), program)
    }
}

/// What a program needs: nothing where it was not traced.
pub fn look_up_trace(traces: &Vec<LoaderTrace>, program: &str) -> (r: Vec<TraceItem>)
    ensures
        views(r@) == trace_of(traces@, program@),
{
    let mut i: usize = 0;
    assert(traces@.subrange(0, traces@.len() as int) =~= traces@);
    while i < traces.len()
        invariant
            i <= traces.len(),
            trace_of(traces@, program@) == trace_of(
                traces@.subrange(i as int, traces@.len() as int),
                program@,
            ),
        decreases traces.len() - i,
    {
        proof {
            let rest = traces@.subrange(i as int, traces@.len() as int);
            assert(rest[0] == traces@[i as int]);
            assert(rest.subrange(1, rest.len() as int) =~= traces@.subrange(
                i + 1,
                traces@.len() as int,
            ));
        }
        if str_equal(traces[i].program.as_str(), program) {
            return trace_items(traces[i].output.as_str());
        }
        i = i + 1;
    }
    let r: Vec<TraceItem> = Vec::new();
    assert(views(r@) =~= Seq::empty());
    r
}

/// The file that an item adds to a plan: a library that exists, by the name
/// under which it is opened; the loader by its location.
pub open spec fn item_file(item: TraceView, facts: Seq<PathFact>) -> Option<Seq<char>> {
    match item {
        TraceView::Library(path) => if is_present(facts, path) {
            Some(path)
        } else {
            None
        },
        TraceView::Loader(path) => match fact_of(facts, path) {
            Some(fact) => text_view(fact.canonical),
            None => None,
        },
    }
}

/// The files with those of the items.
pub open spec fn with_items(
    files: Seq<Seq<char>>,
    items: Seq<TraceView>,
    facts: Seq<PathFact>,
) -> Seq<Seq<char>>
    decreases items.len(),
{
    if items.len() == 0 {
        files
    } else {
        let rest = with_items(files, items.drop_last(), facts);
        match item_file(items.last(), facts) {
            Some(file) => inserted(rest, file),
            None => rest,
        }
    }
}

fn file_of(item: &TraceItem, facts: &Vec<PathFact>) -> (r: Option<String>)
    ensures
        match item_file(item@, facts@) {
            Some(file) => r matches Some(f) && f@ == file,
            None => r is None,
        },
{
    match item {
        TraceItem::Library(path) => match look_up(facts, path.as_str()) {
            Some(_) => Some(path.clone()),
            None => None,
        },
        TraceItem::Loader(path) => match look_up(facts, path.as_str()) {
            Some(fact) => match &fact.canonical {
                Some(c) => Some(c.clone()),
                None => None,
            },
            None => None,
        },
    }
}

/// Add the files of the items.
pub fn add_items(files: &mut Vec<String>, items: &Vec<TraceItem>, facts: &Vec<PathFact>)
    ensures
        views(final(files)@) == with_items(views(old(files)@), views(items@), facts@),
{
    let ghost start = views(files@);
    let ghost all = views(items@);
    let mut i: usize = 0;
    assert(all.len() == items@.len());
    assert(all.take(0) =~= Seq::empty());
    while i < items.len()
        invariant
            i <= items.len(),
            all == views(items@),
            all.len() == items@.len(),
            views(files@) == with_items(start, all.take(i as int), facts@),
        decreases items.len() - i,
    {
        proof {
            let longer = all.take(i + 1);
            assert(longer.drop_last() =~= all.take(i as int));
            assert(longer.last() == items@[i as int]@);
        }
        if let Some(file) = file_of(&items[i], facts) {
            insert_path(files, file);
        }
        i = i + 1;
    }
    assert(all.take(i as int) =~= all);
}

} // verus!
