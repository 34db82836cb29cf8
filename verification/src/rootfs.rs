//! Plans for a minimal root tree: exactly the granted programs, what they need
//! to run, and the granted roots; nothing else exists in it.
//!
//! A plan is made from the plain facts of a host (see [`host`]). Asking the
//! host and building the tree belong to the program around the library.

use vstd::prelude::*;
use vstd::string::*;
use vstd::utf8::encode_utf8;

pub mod distinct;
pub mod host;
pub mod keyed;
pub mod laws;
pub mod order;
pub mod presence;
pub mod traces;

use crate::bytes::{digest_of, fingerprint, hex_encode, hex_of, is_lower_hex, lemma_hex_digits};
use crate::caveats::{Caveats, CaveatsView, Scope, ScopeView};
use crate::config::{NormalizationPolicy, RootfsPolicy};
use crate::paths::{components, file_name, joined};
use crate::paths::{join_path, path_components, path_file_name};
use crate::rootfs::host::{
    add_items, is_directory, is_present, listing_of, look_up, look_up_listing,
    look_up_trace, program_location, resolve_program, trace_of, with_items, DirEntry, HostFacts,
    Listing, PathFact, PathKind, TraceItem,
};
use crate::rootfs::order::{
    compare_paths, insert_path, inserted, path_below, remove_path, remove_paths, removed, without,
};
use crate::sets::{in_order, views, OrderedSet};
use crate::text::{
    begins_with, chars_of, decimal, decimal_of, occurs_in, text_begins_with, text_contains,
    trim_start, wide_decimal_of,
};

verus! {

/// One path that the tree exposes.
#[derive(Debug, Clone, PartialEq, Eq)]
pub struct RootfsEntry {
    /// The path, the same on the host and in the tree.
    pub src: String,
    /// Whether it can be written.
    pub writable: bool,
    /// Whether it is a directory.
    pub is_dir: bool,
}

/// The model of [`RootfsEntry`].
pub ghost struct EntryView {
    pub src: Seq<char>,
    pub writable: bool,
    pub is_dir: bool,
}

impl View for RootfsEntry {
    type V = EntryView;

    open spec fn view(&self) -> EntryView {
        EntryView { src: self.src@, writable: self.writable, is_dir: self.is_dir }
    }
}

/// The paths that a tree exposes, in path order.
#[derive(Debug, Clone, PartialEq, Eq)]
pub struct RootfsPlan {
    /// The paths.
    pub entries: Vec<RootfsEntry>,
}

/// The paths of a plan in the making: files to read, directories to read,
/// directories to write, files to write.
pub ghost struct Draft {
    pub files: Seq<Seq<char>>,
    pub read: Seq<Seq<char>>,
    pub write: Seq<Seq<char>>,
    pub written: Seq<Seq<char>>,
}

/// The files of the granted programs and, where wanted, of their closures; or
/// the refusal of the first program that is not found.
pub open spec fn program_files(
    programs: Seq<Seq<char>>,
    fallback: Seq<Seq<char>>,
    closures: bool,
    host: HostFacts,
) -> Result<Seq<Seq<char>>, Seq<char>>
    decreases programs.len(),
{
    if programs.len() == 0 {
        Ok(Seq::empty())
    } else {
        match program_files(programs.drop_last(), fallback, closures, host) {
            Err(reason) => Err(reason),
            Ok(files) => match program_location(programs.last(), fallback, host) {
                None => Err("granted program not found: "@ + programs.last()),
                Some(bin) => Ok(
                    inserted(
                        if closures {
                            with_items(files, trace_of(host.traces@, bin), host.paths@)
                        } else {
                            files
                        },
                        bin,
                    ),
                ),
            },
        }
    }
}

/// The entry is a module of the name service: a file with such a name.
pub open spec fn is_nss_module(entry: DirEntry) -> bool {
    begins_with(entry.name@, "libnss_"@) && occurs_in(".so"@, entry.name@) && !entry.is_dir
}

/// The files with the name-service modules among some entries.
pub open spec fn with_modules(files: Seq<Seq<char>>, entries: Seq<DirEntry>) -> Seq<Seq<char>>
    decreases entries.len(),
{
    if entries.len() == 0 {
        files
    } else {
        let rest = with_modules(files, entries.drop_last());
        let entry = entries.last();
        match entry.canonical {
            Some(c) => if is_nss_module(entry) {
                inserted(rest, c@)
            } else {
                rest
            },
            None => rest,
        }
    }
}

/// The path is that of a C library.
pub open spec fn is_libc(path: Seq<char>) -> bool {
    file_name(path) matches Some(name) && begins_with(name, "libc.so"@)
}

/// The files with the name-service modules beside the C libraries among
/// `seen`.
pub open spec fn with_nss(
    files: Seq<Seq<char>>,
    seen: Seq<Seq<char>>,
    listings: Seq<Listing>,
) -> Seq<Seq<char>>
    decreases seen.len(),
{
    if seen.len() == 0 {
        files
    } else {
        let rest = with_nss(files, seen.drop_last(), listings);
        if is_libc(seen.last()) {
            match listing_of(listings, components(seen.last()).drop_last()) {
                Some(listing) => with_modules(rest, listing.entries@),
                None => rest,
            }
        } else {
            rest
        }
    }
}

/// The granted entry names a Python.
pub open spec fn is_python(program: Seq<char>) -> bool {
    match file_name(program) {
        Some(name) => begins_with(name, "python"@),
        None => begins_with(program, "python"@),
    }
}

/// One of the granted entries names a Python.
pub open spec fn wants_python(programs: Seq<Seq<char>>) -> bool {
    exists|i: int| 0 <= i < programs.len() && is_python(#[trigger] programs[i])
}

/// The directories with those of the Python standard library among some
/// entries.
pub open spec fn with_python_entries(
    dirs: Seq<Seq<char>>,
    base: Seq<char>,
    entries: Seq<DirEntry>,
) -> Seq<Seq<char>>
    decreases entries.len(),
{
    if entries.len() == 0 {
        dirs
    } else {
        let rest = with_python_entries(dirs, base, entries.drop_last());
        let entry = entries.last();
        if begins_with(entry.name@, "python3"@) && entry.is_dir {
            inserted(rest, joined(base, entry.name@))
        } else {
            rest
        }
    }
}

/// The directories with those of the Python standard library below one base.
pub open spec fn with_python_base(
    dirs: Seq<Seq<char>>,
    base: Seq<char>,
    listings: Seq<Listing>,
) -> Seq<Seq<char>> {
    match listing_of(listings, components(base)) {
        Some(listing) => with_python_entries(dirs, base, listing.entries@),
        None => dirs,
    }
}

/// The directories with those of the Python standard library.
pub open spec fn with_python(dirs: Seq<Seq<char>>, listings: Seq<Listing>) -> Seq<Seq<char>> {
    with_python_base(
        with_python_base(with_python_base(dirs, "/usr/lib"@, listings), "/usr/local/lib"@, listings),
        "/usr/lib64"@,
        listings,
    )
}

/// The draft with paths to read: directories as directories, other paths that
/// exist as files, and none that does not exist.
pub open spec fn with_reads(d: Draft, paths: Seq<Seq<char>>, facts: Seq<PathFact>) -> Draft
    decreases paths.len(),
{
    if paths.len() == 0 {
        d
    } else {
        let rest = with_reads(d, paths.drop_last(), facts);
        let path = paths.last();
        if is_directory(facts, path) {
            Draft { read: inserted(rest.read, path), ..rest }
        } else if is_present(facts, path) {
            Draft { files: inserted(rest.files, path), ..rest }
        } else {
            rest
        }
    }
}

/// The draft with paths to write: directories as directories, other paths that
/// exist as files, and none that does not exist. A path to write is no longer
/// one to read.
pub open spec fn with_writes(d: Draft, paths: Seq<Seq<char>>, facts: Seq<PathFact>) -> Draft
    decreases paths.len(),
{
    if paths.len() == 0 {
        d
    } else {
        let rest = with_writes(d, paths.drop_last(), facts);
        let path = paths.last();
        if is_directory(facts, path) {
            Draft {
                files: removed(rest.files, path),
                read: removed(rest.read, path),
                write: inserted(rest.write, path),
                written: removed(rest.written, path),
            }
        } else if is_present(facts, path) {
            Draft {
                files: removed(rest.files, path),
                read: removed(rest.read, path),
                write: removed(rest.write, path),
                written: inserted(rest.written, path),
            }
        } else {
            rest
        }
    }
}

/// The draft without the files that are also directories to read.
pub open spec fn settled(d: Draft) -> Draft {
    Draft { files: without(d.files, d.read), ..d }
}

/// The paths of a restricted axis, in order; none of an unrestricted one.
pub open spec fn scope_paths(scope: ScopeView<Seq<char>>) -> Seq<Seq<char>> {
    match scope {
        ScopeView::All => Seq::empty(),
        ScopeView::Only(set) => in_order::<String>(set),
    }
}

/// The draft of a plan, or why there is none.
pub open spec fn draft_of(
    effective: CaveatsView,
    data_paths: Seq<Seq<char>>,
    search_dirs: Seq<Seq<char>>,
    norm: NormalizationPolicy,
    host: HostFacts,
) -> Result<Draft, Seq<char>> {
    match effective.exec {
        ScopeView::All => Err("minimal rootfs requires a confined exec scope (exec: Only)"@),
        ScopeView::Only(set) => {
            let programs = in_order::<String>(set);
            match program_files(programs, search_dirs, norm.ldd_closure, host) {
                Err(reason) => Err(reason),
                Ok(found) => {
                    let files = if norm.nss_closure_fallback {
                        with_nss(found, found, host.listings@)
                    } else {
                        found
                    };
                    let read = if norm.python_closure_fallback && wants_python(programs) {
                        with_python(Seq::empty(), host.listings@)
                    } else {
                        Seq::empty()
                    };
                    let start = Draft {
                        files,
                        read,
                        write: Seq::empty(),
                        written: Seq::empty(),
                    };
                    let data = with_reads(start, data_paths, host.paths@);
                    let granted = with_reads(data, scope_paths(effective.fs_read), host.paths@);
                    Ok(
                        settled(
                            with_writes(granted, scope_paths(effective.fs_write), host.paths@),
                        ),
                    )
                },
            }
        },
    }
}

/// Entries of one sort.
pub open spec fn entries_of(paths: Seq<Seq<char>>, writable: bool, is_dir: bool) -> Seq<EntryView> {
    paths.map_values(|src: Seq<char>| EntryView { src, writable, is_dir })
}

/// The entries with one more, behind those that do not come after it.
pub open spec fn placed(list: Seq<EntryView>, entry: EntryView) -> Seq<EntryView>
    decreases list.len(),
{
    if list.len() == 0 {
        seq![entry]
    } else if path_below(entry.src, list[0].src) {
        seq![entry] + list
    } else {
        seq![list[0]] + placed(list.subrange(1, list.len() as int), entry)
    }
}

/// The entries in path order; those with the same path stay in their order.
pub open spec fn sorted(list: Seq<EntryView>) -> Seq<EntryView>
    decreases list.len(),
{
    if list.len() == 0 {
        Seq::empty()
    } else {
        placed(sorted(list.drop_last()), list.last())
    }
}

/// The entries of a draft in path order.
pub open spec fn drafted(d: Draft) -> Seq<EntryView> {
    sorted(
        entries_of(d.files, false, false) + entries_of(d.read, false, true) + entries_of(
            d.write,
            true,
            true,
        ) + entries_of(d.written, true, false),
    )
}

fn add_modules(files: &mut Vec<String>, entries: &Vec<DirEntry>)
    ensures
        views(final(files)@) == with_modules(views(old(files)@), entries@),
{
    let ghost start = views(files@);
    let module: Vec<char> = chars_of(".so");
    let mut i: usize = 0;
    assert(entries@.take(0) =~= Seq::empty());
    while i < entries.len()
        invariant
            i <= entries.len(),
            module@ == ".so"@,
            views(files@) == with_modules(start, entries@.take(i as int)),
        decreases entries.len() - i,
    {
        proof {
            let longer = entries@.take(i + 1);
            assert(longer.drop_last() =~= entries@.take(i as int));
            assert(longer.last() == entries@[i as int]);
        }
        let name: Vec<char> = chars_of(entries[i].name.as_str());
        if let Some(c) = &entries[i].canonical {
            if text_begins_with(&name, "libnss_") && text_contains(&name, &module)
                && !entries[i].is_dir {
                insert_path(files, c.clone());
            }
        }
        i = i + 1;
    }
    assert(entries@.take(i as int) =~= entries@);
}

fn names_libc(path: &str) -> (r: bool)
    ensures
        r == is_libc(path@),
{
    match path_file_name(path) {
        Some(name) => text_begins_with(&chars_of(name.as_str()), "libc.so"),
        None => false,
    }
}

fn parent_parts(path: &str) -> (r: Vec<String>)
    requires
        components(path@).len() > 0,
    ensures
        views(r@) == components(path@).drop_last(),
{
    let mut parts: Vec<String> = path_components(path);
    let ghost all = views(parts@);
    assert(all.len() == parts@.len());
    let _last: Option<String> = parts.pop();
    assert(views(parts@) =~= all.drop_last());
    parts
}

fn add_nss(files: &mut Vec<String>, listings: &Vec<Listing>)
    ensures
        views(final(files)@) == with_nss(views(old(files)@), views(old(files)@), listings@),
{
    let seen: Vec<String> = crate::context::copy_strings(files);
    let ghost start = views(files@);
    let mut i: usize = 0;
    assert(start.len() == seen@.len());
    assert(start.take(0) =~= Seq::empty());
    while i < seen.len()
        invariant
            i <= seen.len(),
            start == views(seen@),
            start.len() == seen@.len(),
            views(files@) == with_nss(start, start.take(i as int), listings@),
        decreases seen.len() - i,
    {
        proof {
            let longer = start.take(i + 1);
            assert(longer.drop_last() =~= start.take(i as int));
            assert(longer.last() == seen@[i as int]@);
        }
        if names_libc(seen[i].as_str()) {
            let parent: Vec<String> = parent_parts(seen[i].as_str());
            if let Some(listing) = look_up_listing(listings, &parent) {
                add_modules(files, &listing.entries);
            }
        }
        i = i + 1;
    }
    assert(start.take(i as int) =~= start);
}

fn names_python(program: &str) -> (r: bool)
    ensures
        r == is_python(program@),
{
    match path_file_name(program) {
        Some(name) => text_begins_with(&chars_of(name.as_str()), "python"),
        None => text_begins_with(&chars_of(program), "python"),
    }
}

fn any_python(programs: &Vec<String>) -> (r: bool)
    ensures
        r == wants_python(views(programs@)),
{
    let mut i: usize = 0;
    while i < programs.len()
        invariant
            i <= programs.len(),
            forall|k: int| 0 <= k < i ==> !is_python(#[trigger] views(programs@)[k]),
        decreases programs.len() - i,
    {
        assert(views(programs@)[i as int] == programs@[i as int]@);
        if names_python(programs[i].as_str()) {
            return true;
        }
        i = i + 1;
    }
    assert(views(programs@).len() == programs@.len());
    false
}

fn add_python_base(dirs: &mut Vec<String>, base: &str, listings: &Vec<Listing>)
    ensures
        views(final(dirs)@) == with_python_base(views(old(dirs)@), base@, listings@),
{
    let listing: &Listing = match look_up_listing(listings, &path_components(base)) {
        None => {
            return;
        },
        Some(listing) => listing,
    };
    let ghost start = views(dirs@);
    let entries: &Vec<DirEntry> = &listing.entries;
    let mut i: usize = 0;
    assert(entries@.take(0) =~= Seq::empty());
    while i < entries.len()
        invariant
            i <= entries.len(),
            views(dirs@) == with_python_entries(start, base@, entries@.take(i as int)),
        decreases entries.len() - i,
    {
        proof {
            let longer = entries@.take(i + 1);
            assert(longer.drop_last() =~= entries@.take(i as int));
            assert(longer.last() == entries@[i as int]);
        }
        let name: &str = entries[i].name.as_str();
        if text_begins_with(&chars_of(name), "python3") && entries[i].is_dir {
            insert_path(dirs, join_path(base, name));
        }
        i = i + 1;
    }
    assert(entries@.take(i as int) =~= entries@);
}

/// Widen the closure for loads that no static trace shows: the name-service
/// modules beside the C library, and the standard library of a granted Python.
/// Libraries and data are added, never a program.
pub fn add_runtime_closure_fallback(
    programs: &Vec<String>,
    files: &mut Vec<String>,
    dirs: &mut Vec<String>,
    nss_fallback: bool,
    python_fallback: bool,
    host: &HostFacts,
)
    ensures
        views(final(files)@) == (if nss_fallback {
            with_nss(views(old(files)@), views(old(files)@), host.listings@)
        } else {
            views(old(files)@)
        }),
        views(final(dirs)@) == (if python_fallback && wants_python(views(programs@)) {
            with_python(views(old(dirs)@), host.listings@)
        } else {
            views(old(dirs)@)
        }),
{
    if nss_fallback {
        add_nss(files, &host.listings);
    }
    if python_fallback && any_python(programs) {
        add_python_base(dirs, "/usr/lib", &host.listings);
        add_python_base(dirs, "/usr/local/lib", &host.listings);
        add_python_base(dirs, "/usr/lib64", &host.listings);
    }
}

fn find_programs(
    programs: &Vec<String>,
    search_dirs: &Vec<String>,
    closures: bool,
    host: &HostFacts,
) -> (r: Result<Vec<String>, String>)
    ensures
        match program_files(views(programs@), views(search_dirs@), closures, *host) {
            Ok(files) => r matches Ok(f) && views(f@) == files,
            Err(reason) => r is Err && r->Err_0@ == reason,
        },
{
    let ghost all = views(programs@);
    let ghost fallback = views(search_dirs@);
    let mut files: Vec<String> = Vec::new();
    let mut i: usize = 0;
    assert(all.len() == programs@.len());
    assert(views(files@) =~= Seq::empty());
    while i < programs.len()
        invariant
            i <= programs.len(),
            all == views(programs@),
            all.len() == programs@.len(),
            fallback == views(search_dirs@),
            program_files(all.take(i as int), fallback, closures, *host) == Ok::<
                Seq<Seq<char>>,
                Seq<char>,
            >(views(files@)),
        decreases programs.len() - i,
    {
        proof {
            let longer = all.take(i + 1);
            assert(longer.drop_last() =~= all.take(i as int));
            assert(longer.last() == programs@[i as int]@);
        }
        match resolve_program(programs[i].as_str(), search_dirs, host) {
            None => {
                proof {
                    lemma_refusal_stays(all, i + 1, fallback, closures, *host);
                }
                return Err(
                    "granted program not found: ".to_owned().concat(programs[i].as_str()),
                );
            },
            Some(bin) => {
                if closures {
                    let items: Vec<TraceItem> = look_up_trace(&host.traces, bin.as_str());
                    add_items(&mut files, &items, &host.paths);
                }
                insert_path(&mut files, bin);
            },
        }
        i = i + 1;
    }
    assert(all.take(i as int) =~= all);
    Ok(files)
}

proof fn lemma_refusal_stays(
    programs: Seq<Seq<char>>,
    i: int,
    fallback: Seq<Seq<char>>,
    closures: bool,
    host: HostFacts,
)
    requires
        0 <= i <= programs.len(),
        program_files(programs.take(i), fallback, closures, host) is Err,
    ensures
        program_files(programs, fallback, closures, host) == program_files(
            programs.take(i),
            fallback,
            closures,
            host,
        ),
    decreases programs.len(),
{
    if i < programs.len() {
        assert(programs.drop_last().take(i) =~= programs.take(i));
        lemma_refusal_stays(programs.drop_last(), i, fallback, closures, host);
    } else {
        assert(programs.take(i) =~= programs);
    }
}

fn add_reads(
    files: &mut Vec<String>,
    read: &mut Vec<String>,
    paths: &Vec<String>,
    facts: &Vec<PathFact>,
    Ghost(base): Ghost<Draft>,
)
    ensures
        (Draft { files: views(final(files)@), read: views(final(read)@), ..base }) == with_reads(
            Draft { files: views(old(files)@), read: views(old(read)@), ..base },
            views(paths@),
            facts@,
        ),
{
    let ghost start = Draft { files: views(files@), read: views(read@), ..base };
    let ghost all = views(paths@);
    let mut i: usize = 0;
    assert(all.len() == paths@.len());
    assert(all.take(0) =~= Seq::empty());
    while i < paths.len()
        invariant
            i <= paths.len(),
            all == views(paths@),
            all.len() == paths@.len(),
            (Draft { files: views(files@), read: views(read@), ..base }) == with_reads(
                start,
                all.take(i as int),
                facts@,
            ),
        decreases paths.len() - i,
    {
        proof {
            let longer = all.take(i + 1);
            assert(longer.drop_last() =~= all.take(i as int));
            assert(longer.last() == paths@[i as int]@);
        }
        if let Some(fact) = look_up(facts, paths[i].as_str()) {
            if fact.kind == PathKind::Directory {
                insert_path(read, paths[i].clone());
            } else {
                insert_path(files, paths[i].clone());
            }
        }
        i = i + 1;
    }
    assert(all.take(i as int) =~= all);
}

fn add_writes(
    files: &mut Vec<String>,
    read: &mut Vec<String>,
    write: &mut Vec<String>,
    written: &mut Vec<String>,
    paths: &Vec<String>,
    facts: &Vec<PathFact>,
)
    ensures
        (Draft {
            files: views(final(files)@),
            read: views(final(read)@),
            write: views(final(write)@),
            written: views(final(written)@),
        }) == with_writes(
            Draft {
                files: views(old(files)@),
                read: views(old(read)@),
                write: views(old(write)@),
                written: views(old(written)@),
            },
            views(paths@),
            facts@,
        ),
{
    let ghost start = Draft {
        files: views(files@),
        read: views(read@),
        write: views(write@),
        written: views(written@),
    };
    let ghost all = views(paths@);
    let mut i: usize = 0;
    assert(all.len() == paths@.len());
    assert(all.take(0) =~= Seq::empty());
    while i < paths.len()
        invariant
            i <= paths.len(),
            all == views(paths@),
            all.len() == paths@.len(),
            (Draft {
                files: views(files@),
                read: views(read@),
                write: views(write@),
                written: views(written@),
            }) == with_writes(start, all.take(i as int), facts@),
        decreases paths.len() - i,
    {
        proof {
            let longer = all.take(i + 1);
            assert(longer.drop_last() =~= all.take(i as int));
            assert(longer.last() == paths@[i as int]@);
        }
        let path: &str = paths[i].as_str();
        if let Some(fact) = look_up(facts, path) {
            remove_path(files, path);
            remove_path(read, path);
            if fact.kind == PathKind::Directory {
                insert_path(write, paths[i].clone());
                remove_path(written, path);
            } else {
                remove_path(write, path);
                insert_path(written, paths[i].clone());
            }
        }
        i = i + 1;
    }
    assert(all.take(i as int) =~= all);
}

fn place(list: &mut Vec<RootfsEntry>, entry: RootfsEntry)
    ensures
        views(final(list)@) == placed(views(old(list)@), entry@),
{
    let ghost q = views(list@);
    let ghost before = list@;
    assert(q.len() == list@.len());
    assert(q.subrange(0, q.len() as int) =~= q);
    assert(q.take(0) + placed(q, entry@) =~= placed(q, entry@));
    let mut i: usize = 0;
    while i < list.len()
        invariant
            i <= list.len(),
            list@ == before,
            before == old(list)@,
            q == views(before),
            q.len() == before.len(),
            placed(q, entry@) == q.take(i as int) + placed(
                q.subrange(i as int, q.len() as int),
                entry@,
            ),
        decreases list.len() - i,
    {
        let ghost rest = q.subrange(i as int, q.len() as int);
        proof {
            assert(rest[0] == before[i as int]@);
            assert(rest.subrange(1, rest.len() as int) =~= q.subrange(i + 1, q.len() as int));
            crate::rootfs::order::law_path_order_is_total(
                entry.src@,
                before[i as int].src@,
                entry.src@,
            );
        }
        if let Some(true) = compare_paths(entry.src.as_str(), list[i].src.as_str()) {
            list.insert(i, entry);
            assert(views(list@) =~= q.take(i as int) + (seq![entry@] + rest));
            return;
        }
        proof {
            assert(q.take(i as int) + (seq![rest[0]] + placed(
                rest.subrange(1, rest.len() as int),
                entry@,
            )) =~= q.take(i + 1) + placed(rest.subrange(1, rest.len() as int), entry@));
        }
        i = i + 1;
    }
    proof {
        assert(q.subrange(i as int, q.len() as int) =~= Seq::empty());
        assert(q.take(i as int) =~= q);
    }
    list.push(entry);
    assert(views(list@) =~= q + seq![entry@]);
}

fn place_all(list: &mut Vec<RootfsEntry>, paths: &Vec<String>, writable: bool, is_dir: bool, Ghost(
    done,
): Ghost<Seq<EntryView>>)
    requires
        views(old(list)@) == sorted(done),
    ensures
        views(final(list)@) == sorted(done + entries_of(views(paths@), writable, is_dir)),
{
    let ghost more = entries_of(views(paths@), writable, is_dir);
    let mut i: usize = 0;
    assert(more.len() == paths@.len());
    assert(done + more.take(0) =~= done);
    while i < paths.len()
        invariant
            i <= paths.len(),
            more == entries_of(views(paths@), writable, is_dir),
            more.len() == paths@.len(),
            views(list@) == sorted(done + more.take(i as int)),
        decreases paths.len() - i,
    {
        let entry = RootfsEntry { src: paths[i].clone(), writable, is_dir };
        proof {
            let longer = done + more.take(i + 1);
            assert(longer.drop_last() =~= done + more.take(i as int));
            assert(views(paths@)[i as int] == paths@[i as int]@);
            assert(longer.last() == entry@);
        }
        place(list, entry);
        i = i + 1;
    }
    assert(more.take(i as int) =~= more);
}

fn scope_list(scope: &Scope<String>) -> (r: Vec<String>)
    ensures
        views(r@) == scope_paths(scope@),
{
    match scope {
        Scope::All => {
            let r: Vec<String> = Vec::new();
            assert(views(r@) =~= Seq::empty());
            r
        },
        Scope::Only(set) => crate::context::copy_strings(set.as_vec()),
    }
}

/// The plan of a minimal root tree: the files of the granted programs and of
/// their closures, the runtime data, and the granted roots. A root that is
/// granted for writing is exposed for writing, whatever else exposes it. There
/// is no plan where any program may run, and none where a granted program is
/// not found.
pub fn build_rootfs_plan(
    effective: &Caveats,
    rootfs: &RootfsPolicy,
    norm: &NormalizationPolicy,
    host: &HostFacts,
) -> (r: Result<RootfsPlan, String>)
    ensures
        match draft_of(
            effective@,
            rootfs.data_paths.resolved(),
            views(rootfs.search_dirs@),
            *norm,
            *host,
        ) {
            Ok(d) => r matches Ok(plan) && views(plan.entries@) == drafted(d),
            Err(reason) => r is Err && r->Err_0@ == reason,
        },
{
    let granted: &OrderedSet<String> = match &effective.exec {
        Scope::All => {
            return Err(
                "minimal rootfs requires a confined exec scope (exec: Only)".to_owned(),
            );
        },
        Scope::Only(set) => set,
    };
    let programs: &Vec<String> = granted.as_vec();
    let mut files: Vec<String> = match find_programs(
        programs,
        &rootfs.search_dirs,
        norm.ldd_closure,
        host,
    ) {
        Ok(files) => files,
        Err(reason) => {
            return Err(reason);
        },
    };
    let mut read: Vec<String> = Vec::new();
    let mut write: Vec<String> = Vec::new();
    let mut written: Vec<String> = Vec::new();
    assert(views(read@) =~= Seq::empty());
    assert(views(write@) =~= Seq::empty());
    assert(views(written@) =~= Seq::empty());
    add_runtime_closure_fallback(
        programs,
        &mut files,
        &mut read,
        norm.nss_closure_fallback,
        norm.python_closure_fallback,
        host,
    );
    let data: Vec<String> = rootfs.data_paths.resolve();
    let ghost none = Draft {
        files: Seq::empty(),
        read: Seq::empty(),
        write: Seq::empty(),
        written: Seq::empty(),
    };
    add_reads(&mut files, &mut read, &data, &host.paths, Ghost(none));
    add_reads(&mut files, &mut read, &scope_list(&effective.fs_read), &host.paths, Ghost(none));
    add_writes(
        &mut files,
        &mut read,
        &mut write,
        &mut written,
        &scope_list(&effective.fs_write),
        &host.paths,
    );
    remove_paths(&mut files, &read);
    let mut entries: Vec<RootfsEntry> = Vec::new();
    assert(views(entries@) =~= sorted(Seq::empty()));
    let ghost f = entries_of(views(files@), false, false);
    let ghost d = entries_of(views(read@), false, true);
    place_all(&mut entries, &files, false, false, Ghost(Seq::empty()));
    assert(Seq::<EntryView>::empty() + f =~= f);
    place_all(&mut entries, &read, false, true, Ghost(f));
    let ghost w = entries_of(views(write@), true, true);
    place_all(&mut entries, &write, true, true, Ghost(f + d));
    place_all(&mut entries, &written, true, false, Ghost(f + d + w));
    Ok(RootfsPlan { entries })
}

/// What the host says of a file when a plan is keyed.
#[derive(Debug, Clone, Copy, PartialEq, Eq)]
pub struct FileStamp {
    /// Its length.
    pub len: u64,
    /// When it was changed, in nanoseconds since the Unix epoch, if known.
    pub modified: Option<u128>,
}

/// The line of one entry in the text that a plan is keyed by.
pub open spec fn key_line(entry: EntryView, stamp: Option<FileStamp>) -> Seq<char> {
    let head = entry.src + "\0"@ + (if entry.writable {
        "rw"@
    } else {
        "ro"@
    }) + "\0"@ + (if entry.is_dir {
        "d"@
    } else {
        "f"@
    });
    let stamped = match stamp {
        Some(s) => if entry.is_dir {
            head
        } else {
            let sized = head + "\0"@ + decimal(s.len as nat);
            match s.modified {
                Some(t) => sized + "\0"@ + decimal(t as nat),
                None => sized,
            }
        },
        None => head,
    };
    stamped + "\n"@
}

/// The text that a plan is keyed by.
pub open spec fn key_text(entries: Seq<EntryView>, stamps: Seq<Option<FileStamp>>) -> Seq<char>
    decreases entries.len(),
{
    if entries.len() == 0 {
        Seq::empty()
    } else {
        key_text(entries.drop_last(), stamps) + key_line(
            entries.last(),
            stamps[entries.len() - 1],
        )
    }
}

/// The key of a plan.
pub open spec fn plan_key(entries: Seq<EntryView>, stamps: Seq<Option<FileStamp>>) -> Seq<char> {
    hex_of(fingerprint(encode_utf8(key_text(entries, stamps))))
}

/// A cache of built root trees.
#[derive(Debug, PartialEq, Eq)]
pub struct RootfsCache {
    root: String,
}

/// What a cache has to do for a tree.
#[derive(Debug, Clone, Copy, PartialEq, Eq, Structural)]
pub enum CacheStep {
    /// A complete tree is there.
    Reuse,
    /// An unfinished tree is there: clear it, then build.
    ClearAndBuild,
    /// Nothing is there: build.
    Build,
}

fn line_of(entry: &RootfsEntry, stamp: Option<FileStamp>) -> (r: String)
    ensures
        r@ == key_line(entry@, stamp),
{
    let access: &str = if entry.writable {
        "rw"
    } else {
        "ro"
    };
    let sort: &str = if entry.is_dir {
        "d"
    } else {
        "f"
    };
    let mut r: String = entry.src.clone().concat("\0").concat(access).concat("\0").concat(sort);
    if !entry.is_dir {
        if let Some(s) = stamp {
            r = r.concat("\0").concat(decimal_of(s.len).as_str());
            if let Some(t) = s.modified {
                r = r.concat("\0").concat(wide_decimal_of(t).as_str());
            }
        }
    }
    r.concat("\n")
}

impl RootfsCache {
    /// The directory of the cache.
    pub closed spec fn root(self) -> Seq<char> {
        self.root@
    }

    /// A cache in a directory.
    pub fn new(root: String) -> (r: Self)
        ensures
            r.root() == root@,
    {
        RootfsCache { root }
    }

    /// The key of a plan, given what the host says of each entry: the digest
    /// of the paths, their access and sort, and the length and time of each
    /// file, in hexadecimal.
    pub fn key(plan: &RootfsPlan, stamps: &Vec<Option<FileStamp>>) -> (r: String)
        requires
            stamps@.len() == plan.entries@.len(),
        ensures
            r@ == plan_key(views(plan.entries@), stamps@),
            r@.len() == 64,
            forall|i: int| 0 <= i < 64 ==> is_lower_hex(#[trigger] r@[i]),
    {
        let mut text: String = String::new();
        let ghost all = views(plan.entries@);
        let mut i: usize = 0;
        assert(all.len() == plan.entries@.len());
        assert(text@ =~= key_text(all.take(0), stamps@));
        while i < plan.entries.len()
            invariant
                i <= plan.entries.len(),
                all == views(plan.entries@),
                all.len() == plan.entries@.len(),
                stamps@.len() == plan.entries@.len(),
                text@ == key_text(all.take(i as int), stamps@),
            decreases plan.entries.len() - i,
        {
            proof {
                let longer = all.take(i + 1);
                assert(longer.drop_last() =~= all.take(i as int));
                assert(longer.last() == plan.entries@[i as int]@);
            }
            text.append(line_of(&plan.entries[i], stamps[i]).as_str());
            i = i + 1;
        }
        assert(all.take(i as int) =~= all);
        let data: Vec<u8> = text.as_str().as_bytes_vec();
        let digest: [u8; 32] = digest_of(data.as_slice());
        proof {
            lemma_hex_digits(digest@);
        }
        hex_encode(&digest)
    }

    /// Where the tree with this key is.
    pub fn place_of(&self, key: &str) -> (r: String)
        ensures
            r@ == joined(self.root(), key@),
    {
        join_path(self.root.as_str(), key)
    }

    /// What to do, given whether the marker of a complete tree is there and
    /// whether its directory is.
    pub fn step(complete: bool, exists: bool) -> (r: CacheStep)
        ensures
            r == (if complete {
                CacheStep::Reuse
            } else if exists {
                CacheStep::ClearAndBuild
            } else {
                CacheStep::Build
            }),
    {
        if complete {
            CacheStep::Reuse
        } else if exists {
            CacheStep::ClearAndBuild
        } else {
            CacheStep::Build
        }
    }
}

/// Where a path of the plan stands in a tree built at `dest`.
pub fn materialized_at(dest: &str, src: &str) -> (r: String)
    ensures
        r@ == joined(dest@, trim_start(src@, '/')),
{
    let rest: String = crate::text::trim_start_text(src, '/');
    join_path(dest, rest.as_str())
}

} // verus!
