//! What must be in a plan: every path that is wanted and exists, as what the
//! host says that it is.

use vstd::prelude::*;

use crate::caveats::{Caveats, CaveatsView};
use crate::config::{NormalizationPolicy, PathList, RootfsPolicy};
use crate::paths::{
    components, file_name, follows, joined, law_a_file_name_stands_last,
    law_components_are_the_names_between_separators, lemma_entry_components,
};
use crate::rootfs::build_rootfs_plan;
use crate::rootfs::host::{
    candidates, fact_of, first_file, is_directory, is_present, item_file, listing_of, look_up_trace,
    nonempty, program_candidates, program_location, resolve_program, search_dirs, text_view,
    trace_of, with_items, DirEntry, HostFacts, Listing, PathFact, PathKind, TraceItem, TraceView,
};
use crate::rootfs::laws::{
    lemma_drafted, lemma_items, lemma_modules, lemma_nss, lemma_program_files,
};
use crate::rootfs::order::{
    holds_path, inserted, lemma_inserted, lemma_removed, lemma_without, removed, same_path, without,
};
use crate::rootfs::{
    draft_of, drafted, is_libc, is_nss_module, is_python, program_files, scope_paths, settled,
    wants_python, with_modules, with_nss, with_python, with_python_base, with_python_entries,
    with_reads, with_writes, Draft, EntryView, RootfsPlan,
};
use crate::sets::{law_a_set_in_order_is_that_set, views};
use crate::text::{begins_with, occurs_at, split_text};

verus! {

proof fn lemma_fact(facts: Seq<PathFact>, x: Seq<char>, k: int) -> (j: int)
    requires
        0 <= k < facts.len(),
        facts[k].path@ == x,
    ensures
        0 <= j <= k,
        facts[j].path@ == x,
        fact_of(facts, x) == Some(facts[j]),
        forall|i: int| 0 <= i < j ==> (#[trigger] facts[i]).path@ != x,
    decreases facts.len(),
{
    if facts[0].path@ == x {
        0
    } else {
        let rest = facts.subrange(1, facts.len() as int);
        assert(rest[k - 1] == facts[k]);
        let j = lemma_fact(rest, x, k - 1);
        assert forall|i: int| 0 <= i < j + 1 implies (#[trigger] facts[i]).path@ != x by {
            if i > 0 {
                assert(rest[i - 1] == facts[i]);
            }
        }
        j + 1
    }
}

proof fn lemma_fact_back(facts: Seq<PathFact>, x: Seq<char>) -> (j: int)
    requires
        is_present(facts, x),
    ensures
        0 <= j < facts.len(),
        facts[j].path@ == x,
        fact_of(facts, x) == Some(facts[j]),
    decreases facts.len(),
{
    if facts[0].path@ == x {
        0
    } else {
        let rest = facts.subrange(1, facts.len() as int);
        let j = lemma_fact_back(rest, x);
        assert(rest[j] == facts[j + 1]);
        j + 1
    }
}

proof fn lemma_holds_inserted(list: Seq<Seq<char>>, p: Seq<char>)
    ensures
        forall|x: Seq<char>| #[trigger]
            holds_path(inserted(list, p), x) <==> holds_path(list, x) || same_path(p, x),
{
    lemma_inserted(list, p);
    assert forall|x: Seq<char>| #[trigger]
        holds_path(inserted(list, p), x) <==> holds_path(list, x) || same_path(p, x) by {
        if holds_path(inserted(list, p), x) {
            let y = choose|y: Seq<char>| #[trigger] inserted(list, p).contains(y) && same_path(y, x);
            if y != p {
                assert(list.contains(y));
            }
        }
        if holds_path(list, x) {
            let y = choose|y: Seq<char>| #[trigger] list.contains(y) && same_path(y, x);
            assert(inserted(list, p).contains(y));
        }
        if same_path(p, x) {
            let y = choose|y: Seq<char>| #[trigger] inserted(list, p).contains(y) && same_path(y, p);
            assert(same_path(y, x));
        }
    }
}

proof fn lemma_holds_removed(list: Seq<Seq<char>>, p: Seq<char>)
    ensures
        forall|x: Seq<char>| #[trigger]
            holds_path(removed(list, p), x) <==> holds_path(list, x) && !same_path(p, x),
{
    lemma_removed(list, p);
    assert forall|x: Seq<char>| #[trigger]
        holds_path(removed(list, p), x) <==> holds_path(list, x) && !same_path(p, x) by {
        if holds_path(removed(list, p), x) {
            let y = choose|y: Seq<char>| #[trigger] removed(list, p).contains(y) && same_path(y, x);
            assert(list.contains(y));
        }
        if holds_path(list, x) && !same_path(p, x) {
            let y = choose|y: Seq<char>| #[trigger] list.contains(y) && same_path(y, x);
            assert(removed(list, p).contains(y));
        }
    }
}

proof fn lemma_holds_without(list: Seq<Seq<char>>, dropped: Seq<Seq<char>>)
    ensures
        forall|x: Seq<char>| #[trigger]
            holds_path(without(list, dropped), x) <==> holds_path(list, x) && !holds_path(
                dropped,
                x,
            ),
{
    lemma_without(list, dropped);
    assert forall|x: Seq<char>| #[trigger]
        holds_path(without(list, dropped), x) <==> holds_path(list, x) && !holds_path(
            dropped,
            x,
        ) by {
        if holds_path(without(list, dropped), x) {
            let y = choose|y: Seq<char>| #[trigger]
                without(list, dropped).contains(y) && same_path(y, x);
            assert(list.contains(y));
            if holds_path(dropped, x) {
                let z = choose|z: Seq<char>| #[trigger] dropped.contains(z) && same_path(z, x);
                assert(same_path(z, y));
            }
        }
        if holds_path(list, x) && !holds_path(dropped, x) {
            let y = choose|y: Seq<char>| #[trigger] list.contains(y) && same_path(y, x);
            if holds_path(dropped, y) {
                let z = choose|z: Seq<char>| #[trigger] dropped.contains(z) && same_path(z, y);
                assert(same_path(z, x));
            }
            assert(without(list, dropped).contains(y));
        }
    }
}

/// A spelling of the path is among the paths and exists as a directory.
spec fn directory_among(paths: Seq<Seq<char>>, facts: Seq<PathFact>, x: Seq<char>) -> bool {
    exists|i: int|
        0 <= i < paths.len() && same_path(#[trigger] paths[i], x) && is_directory(facts, paths[i])
}

/// A spelling of the path is among the paths and exists as something else.
spec fn other_among(paths: Seq<Seq<char>>, facts: Seq<PathFact>, x: Seq<char>) -> bool {
    exists|i: int|
        0 <= i < paths.len() && same_path(#[trigger] paths[i], x) && is_present(facts, paths[i])
            && !is_directory(facts, paths[i])
}

proof fn lemma_among_more(paths: Seq<Seq<char>>, facts: Seq<PathFact>, x: Seq<char>)
    requires
        paths.len() > 0,
    ensures
        directory_among(paths, facts, x) <==> directory_among(paths.drop_last(), facts, x) || (
        same_path(paths.last(), x) && is_directory(facts, paths.last())),
        other_among(paths, facts, x) <==> other_among(paths.drop_last(), facts, x) || (same_path(
            paths.last(),
            x,
        ) && is_present(facts, paths.last()) && !is_directory(facts, paths.last())),
{
    let shorter = paths.drop_last();
    let n = paths.len() - 1;
    assert(paths[n] == paths.last());
    if directory_among(shorter, facts, x) {
        let i = choose|i: int|
            0 <= i < shorter.len() && same_path(#[trigger] shorter[i], x) && is_directory(
                facts,
                shorter[i],
            );
        assert(paths[i] == shorter[i]);
    }
    if other_among(shorter, facts, x) {
        let i = choose|i: int|
            0 <= i < shorter.len() && same_path(#[trigger] shorter[i], x) && is_present(
                facts,
                shorter[i],
            ) && !is_directory(facts, shorter[i]);
        assert(paths[i] == shorter[i]);
    }
    if directory_among(paths, facts, x) {
        let i = choose|i: int|
            0 <= i < paths.len() && same_path(#[trigger] paths[i], x) && is_directory(
                facts,
                paths[i],
            );
        if i < n {
            assert(shorter[i] == paths[i]);
        }
    }
    if other_among(paths, facts, x) {
        let i = choose|i: int|
            0 <= i < paths.len() && same_path(#[trigger] paths[i], x) && is_present(
                facts,
                paths[i],
            ) && !is_directory(facts, paths[i]);
        if i < n {
            assert(shorter[i] == paths[i]);
        }
    }
}

proof fn lemma_reads_held(d: Draft, paths: Seq<Seq<char>>, facts: Seq<PathFact>, x: Seq<char>)
    ensures
        holds_path(with_reads(d, paths, facts).read, x) <==> holds_path(d.read, x)
            || directory_among(paths, facts, x),
        holds_path(with_reads(d, paths, facts).files, x) <==> holds_path(d.files, x) || other_among(
            paths,
            facts,
            x,
        ),
        with_reads(d, paths, facts).write == d.write,
        with_reads(d, paths, facts).written == d.written,
    decreases paths.len(),
{
    if paths.len() > 0 {
        let shorter = paths.drop_last();
        let rest = with_reads(d, shorter, facts);
        lemma_reads_held(d, shorter, facts, x);
        lemma_among_more(paths, facts, x);
        lemma_holds_inserted(rest.read, paths.last());
        lemma_holds_inserted(rest.files, paths.last());
    }
}

proof fn lemma_writes_held(d: Draft, paths: Seq<Seq<char>>, facts: Seq<PathFact>, x: Seq<char>)
    requires
        d.write.len() == 0,
        d.written.len() == 0,
    ensures
        ({
            let done = with_writes(d, paths, facts);
            let hit = directory_among(paths, facts, x) || other_among(paths, facts, x);
            &&& !hit ==> (holds_path(done.files, x) <==> holds_path(d.files, x)) && (holds_path(
                done.read,
                x,
            ) <==> holds_path(d.read, x)) && !holds_path(done.write, x) && !holds_path(
                done.written,
                x,
            )
            &&& hit ==> !holds_path(done.files, x) && !holds_path(done.read, x) && (holds_path(
                done.write,
                x,
            ) <==> !holds_path(done.written, x))
            &&& holds_path(done.write, x) ==> directory_among(paths, facts, x)
            &&& holds_path(done.written, x) ==> other_among(paths, facts, x)
        }),
    decreases paths.len(),
{
    if paths.len() > 0 {
        let shorter = paths.drop_last();
        let path = paths.last();
        let rest = with_writes(d, shorter, facts);
        lemma_writes_held(d, shorter, facts, x);
        lemma_among_more(paths, facts, x);
        lemma_holds_removed(rest.files, path);
        lemma_holds_removed(rest.read, path);
        lemma_holds_removed(rest.write, path);
        lemma_holds_removed(rest.written, path);
        lemma_holds_inserted(rest.write, path);
        lemma_holds_inserted(rest.written, path);
    }
}

/// The draft that a plan starts from: what its programs need.
spec fn first_draft(
    effective: CaveatsView,
    search_dirs: Seq<Seq<char>>,
    norm: NormalizationPolicy,
    host: HostFacts,
) -> Draft {
    let programs = scope_paths(effective.exec);
    let found = program_files(programs, search_dirs, norm.ldd_closure, host)->Ok_0;
    Draft {
        files: if norm.nss_closure_fallback {
            with_nss(found, found, host.listings@)
        } else {
            found
        },
        read: if norm.python_closure_fallback && wants_python(programs) {
            with_python(Seq::empty(), host.listings@)
        } else {
            Seq::empty()
        },
        write: Seq::empty(),
        written: Seq::empty(),
    }
}

/// Where a path stands in a draft.
proof fn lemma_held(
    effective: CaveatsView,
    data_paths: Seq<Seq<char>>,
    search_dirs: Seq<Seq<char>>,
    norm: NormalizationPolicy,
    host: HostFacts,
    x: Seq<char>,
) -> (d: Draft)
    requires
        draft_of(effective, data_paths, search_dirs, norm, host) is Ok,
    ensures
        draft_of(effective, data_paths, search_dirs, norm, host) == Ok::<Draft, Seq<char>>(d),
        ({
            let start = first_draft(effective, search_dirs, norm, host);
            let facts = host.paths@;
            let roots = scope_paths(effective.fs_read);
            let writes = scope_paths(effective.fs_write);
            let hit = directory_among(writes, facts, x) || other_among(writes, facts, x);
            &&& holds_path(d.write, x) ==> directory_among(writes, facts, x)
            &&& holds_path(d.written, x) ==> other_among(writes, facts, x)
            &&& hit ==> !holds_path(d.files, x) && !holds_path(d.read, x) && (holds_path(
                d.write,
                x,
            ) <==> !holds_path(d.written, x))
            &&& !hit ==> {
                &&& holds_path(d.read, x) <==> holds_path(start.read, x) || directory_among(
                    data_paths,
                    facts,
                    x,
                ) || directory_among(roots, facts, x)
                &&& holds_path(d.files, x) <==> !holds_path(d.read, x) && (holds_path(
                    start.files,
                    x,
                ) || other_among(data_paths, facts, x) || other_among(roots, facts, x))
            }
        }),
{
    let start = first_draft(effective, search_dirs, norm, host);
    let facts = host.paths@;
    let roots = scope_paths(effective.fs_read);
    let writes = scope_paths(effective.fs_write);
    let data = with_reads(start, data_paths, facts);
    lemma_reads_held(start, data_paths, facts, x);
    let granted = with_reads(data, roots, facts);
    lemma_reads_held(data, roots, facts, x);
    let full = with_writes(granted, writes, facts);
    lemma_writes_held(granted, writes, facts, x);
    let d = settled(full);
    lemma_holds_without(full.files, full.read);
    d
}

/// The entries of a plan and the lists of its draft.
proof fn lemma_entry_of(d: Draft, entries: Seq<EntryView>, x: Seq<char>)
    requires
        entries == drafted(d),
    ensures
        holds_path(d.files, x) || holds_path(d.read, x) || holds_path(d.write, x) || holds_path(
            d.written,
            x,
        ) ==> exists|i: int|
            0 <= i < entries.len() && components((#[trigger] entries[i]).src) == components(x),
        forall|i: int|
            0 <= i < entries.len() && components((#[trigger] entries[i]).src) == components(x) ==> (
            if entries[i].is_dir {
                if entries[i].writable {
                    holds_path(d.write, x)
                } else {
                    holds_path(d.read, x)
                }
            } else {
                if entries[i].writable {
                    holds_path(d.written, x)
                } else {
                    holds_path(d.files, x)
                }
            }),
{
    if holds_path(d.files, x) || holds_path(d.read, x) || holds_path(d.write, x) || holds_path(
        d.written,
        x,
    ) {
        let (list, writable, is_dir) = if holds_path(d.files, x) {
            (d.files, false, false)
        } else if holds_path(d.read, x) {
            (d.read, false, true)
        } else if holds_path(d.write, x) {
            (d.write, true, true)
        } else {
            (d.written, true, false)
        };
        let y = choose|y: Seq<char>| #[trigger] list.contains(y) && same_path(y, x);
        let e = EntryView { src: y, writable, is_dir };
        lemma_drafted(d, e);
        assert(entries.contains(e));
        let i = choose|i: int| 0 <= i < entries.len() && entries[i] == e;
        assert(components(entries[i].src) == components(x));
    }
    assert forall|i: int|
        0 <= i < entries.len() && components((#[trigger] entries[i]).src) == components(x) implies (
    if entries[i].is_dir {
        if entries[i].writable {
            holds_path(d.write, x)
        } else {
            holds_path(d.read, x)
        }
    } else {
        if entries[i].writable {
            holds_path(d.written, x)
        } else {
            holds_path(d.files, x)
        }
    }) by {
        let e = entries[i];
        assert(entries.contains(e));
        lemma_drafted(d, e);
        assert(same_path(e.src, x));
    }
}

/// The host says one thing of a path, however it is spelled: every fact on it
/// calls it a directory, or none does and no listing shows it as one.
pub open spec fn one_kind(host: HostFacts, x: Seq<char>, directory: bool) -> bool {
    &&& forall|j: int|
        0 <= j < host.paths@.len() && components((#[trigger] host.paths@[j]).path@) == components(x)
            ==> (host.paths@[j].kind == PathKind::Directory) == directory
    &&& forall|l: int, e: int|
        0 <= l < host.listings@.len() && 0 <= e < (#[trigger] host.listings@[l]).entries@.len()
            ==> {
            let entry = #[trigger] host.listings@[l].entries@[e];
            follows(entry.name@) && (entry.is_dir && components(x) == components(
                host.listings@[l].dir@,
            ).push(entry.name@) ==> directory)
        }
}

proof fn lemma_one_kind(
    host: HostFacts,
    paths: Seq<Seq<char>>,
    x: Seq<char>,
    directory: bool,
)
    requires
        one_kind(host, x, directory),
    ensures
        directory_among(paths, host.paths@, x) ==> directory,
        other_among(paths, host.paths@, x) ==> !directory,
{
    let facts = host.paths@;
    if directory_among(paths, facts, x) {
        let i = choose|i: int|
            0 <= i < paths.len() && same_path(#[trigger] paths[i], x) && is_directory(
                facts,
                paths[i],
            );
        let j = lemma_fact_back(facts, paths[i]);
        assert(components(host.paths@[j].path@) == components(x));
    }
    if other_among(paths, facts, x) {
        let i = choose|i: int|
            0 <= i < paths.len() && same_path(#[trigger] paths[i], x) && is_present(
                facts,
                paths[i],
            ) && !is_directory(facts, paths[i]);
        let j = lemma_fact_back(facts, paths[i]);
        assert(components(host.paths@[j].path@) == components(x));
    }
}

proof fn lemma_python_entries_held(
    dirs: Seq<Seq<char>>,
    base: Seq<char>,
    entries: Seq<DirEntry>,
    x: Seq<char>,
)
    requires
        holds_path(with_python_entries(dirs, base, entries), x),
    ensures
        holds_path(dirs, x) || exists|e: int|
            0 <= e < entries.len() && (#[trigger] entries[e]).is_dir && same_path(
                joined(base, entries[e].name@),
                x,
            ),
    decreases entries.len(),
{
    if entries.len() > 0 {
        let shorter = entries.drop_last();
        let rest = with_python_entries(dirs, base, shorter);
        lemma_holds_inserted(rest, joined(base, entries.last().name@));
        if holds_path(rest, x) {
            lemma_python_entries_held(dirs, base, shorter, x);
            if !holds_path(dirs, x) {
                let e = choose|e: int|
                    0 <= e < shorter.len() && (#[trigger] shorter[e]).is_dir && same_path(
                        joined(base, shorter[e].name@),
                        x,
                    );
                assert(entries[e] == shorter[e]);
            }
        } else {
            assert(entries[entries.len() - 1] == entries.last());
        }
    }
}

proof fn lemma_listing(listings: Seq<Listing>, dir: Seq<Seq<char>>) -> (l: int)
    requires
        listing_of(listings, dir) is Some,
    ensures
        0 <= l < listings.len(),
        components(listings[l].dir@) == dir,
        listing_of(listings, dir) == Some(listings[l]),
    decreases listings.len(),
{
    if components(listings[0].dir@) == dir {
        0
    } else {
        let rest = listings.subrange(1, listings.len() as int);
        let l = lemma_listing(rest, dir);
        assert(rest[l] == listings[l + 1]);
        l + 1
    }
}

proof fn lemma_python_base_held(
    dirs: Seq<Seq<char>>,
    base: Seq<char>,
    host: HostFacts,
    x: Seq<char>,
    directory: bool,
)
    requires
        base.len() > 0,
        one_kind(host, x, directory),
        holds_path(dirs, x) ==> directory,
        holds_path(with_python_base(dirs, base, host.listings@), x),
    ensures
        directory,
{
    if listing_of(host.listings@, components(base)) is Some {
        let l = lemma_listing(host.listings@, components(base));
        let entries = host.listings@[l].entries@;
        lemma_python_entries_held(dirs, base, entries, x);
        if !holds_path(dirs, x) {
            let e = choose|e: int|
                0 <= e < entries.len() && (#[trigger] entries[e]).is_dir && same_path(
                    joined(base, entries[e].name@),
                    x,
                );
            assert(host.listings@[l].entries@[e] == entries[e]);
            assert(follows(entries[e].name@));
            lemma_entry_components(base, entries[e].name@);
        }
    }
}

proof fn lemma_python_held(host: HostFacts, x: Seq<char>, directory: bool)
    requires
        one_kind(host, x, directory),
        holds_path(with_python(Seq::empty(), host.listings@), x),
    ensures
        directory,
{
    reveal_strlit("/usr/lib");
    reveal_strlit("/usr/local/lib");
    reveal_strlit("/usr/lib64");
    let none = Seq::<Seq<char>>::empty();
    let one = with_python_base(none, "/usr/lib"@, host.listings@);
    let two = with_python_base(one, "/usr/local/lib"@, host.listings@);
    if !directory {
        assert(!holds_path(none, x));
        if holds_path(one, x) {
            lemma_python_base_held(none, "/usr/lib"@, host, x, directory);
        }
        if holds_path(two, x) {
            lemma_python_base_held(one, "/usr/local/lib"@, host, x, directory);
        }
        lemma_python_base_held(two, "/usr/lib64"@, host, x, directory);
    }
}

/// The paths of a restricted axis are the members of its set.
proof fn lemma_scope_paths(effective: &Caveats, x: Seq<char>)
    ensures
        scope_paths(effective@.fs_read).contains(x) <==> effective@.fs_read is Only
            && effective@.fs_read->Only_0.contains(x),
        scope_paths(effective@.fs_write).contains(x) <==> effective@.fs_write is Only
            && effective@.fs_write->Only_0.contains(x),
        scope_paths(effective@.exec).contains(x) <==> effective@.exec is Only
            && effective@.exec->Only_0.contains(x),
{
    if let crate::caveats::Scope::Only(set) = effective.fs_read {
        set.lemma_finite();
        law_a_set_in_order_is_that_set::<String>(set@);
    }
    if let crate::caveats::Scope::Only(set) = effective.fs_write {
        set.lemma_finite();
        law_a_set_in_order_is_that_set::<String>(set@);
    }
    if let crate::caveats::Scope::Only(set) = effective.exec {
        set.lemma_finite();
        law_a_set_in_order_is_that_set::<String>(set@);
    }
}

/// Every data path and every root that is granted for reading has an entry in
/// the plan where it exists, whatever it is: an entry for that path, to write
/// only where it is granted for writing. Where the host says one thing of the
/// path, the entry is a directory exactly where the host calls it one.
#[verifier::rlimit(40)]
pub proof fn law_what_is_read_and_exists_is_in_the_plan(
    effective: &Caveats,
    rootfs: &RootfsPolicy,
    norm: &NormalizationPolicy,
    host: &HostFacts,
    plan: RootfsPlan,
    data: Vec<String>,
    x: Seq<char>,
    k: int,
)
    requires
        call_ensures(
            build_rootfs_plan,
            (effective, rootfs, norm, host),
            Ok::<RootfsPlan, String>(plan),
        ),
        call_ensures(PathList::resolve, (&rootfs.data_paths,), data),
        (exists|i: int| 0 <= i < data@.len() && (#[trigger] data@[i])@ == x) || (
        effective@.fs_read is Only && effective@.fs_read->Only_0.contains(x)),
        0 <= k < host.paths@.len(),
        host.paths@[k].path@ == x,
    ensures
        exists|i: int|
            0 <= i < plan.entries@.len() && components((#[trigger] plan.entries@[i]).src@)
                == components(x),
        forall|i: int|
            0 <= i < plan.entries@.len() && components((#[trigger] plan.entries@[i]).src@)
                == components(x) && plan.entries@[i].writable ==> exists|w: Seq<char>|
                effective@.fs_write is Only && #[trigger] effective@.fs_write->Only_0.contains(w)
                    && components(w) == components(x),
        one_kind(*host, x, host.paths@[k].kind == PathKind::Directory) ==> forall|i: int|
            0 <= i < plan.entries@.len() && components((#[trigger] plan.entries@[i]).src@)
                == components(x) ==> plan.entries@[i].is_dir == (host.paths@[k].kind
                == PathKind::Directory),
{
    let facts = host.paths@;
    let data_paths = rootfs.data_paths.resolved();
    let dirs = views(rootfs.search_dirs@);
    let roots = scope_paths(effective@.fs_read);
    let writes = scope_paths(effective@.fs_write);
    let directory = host.paths@[k].kind == PathKind::Directory;
    let d = lemma_held(effective@, data_paths, dirs, *norm, *host, x);
    let entries = views(plan.entries@);
    lemma_entry_of(d, entries, x);
    lemma_scope_paths(effective, x);
    let j = lemma_fact(facts, x, k);
    assert(data_paths == views(data@));
    if exists|i: int| 0 <= i < data@.len() && (#[trigger] data@[i])@ == x {
        let i = choose|i: int| 0 <= i < data@.len() && (#[trigger] data@[i])@ == x;
        assert(data_paths[i] == x);
        assert(directory_among(data_paths, facts, x) || other_among(data_paths, facts, x));
    } else {
        let i = choose|i: int| 0 <= i < roots.len() && roots[i] == x;
        assert(same_path(roots[i], x));
        assert(directory_among(roots, facts, x) || other_among(roots, facts, x));
    }
    let i = choose|i: int|
        0 <= i < entries.len() && components((#[trigger] entries[i]).src) == components(x);
    assert(plan.entries@[i]@ == entries[i]);
    assert forall|i: int|
        0 <= i < plan.entries@.len() && components((#[trigger] plan.entries@[i]).src@)
            == components(x) && plan.entries@[i].writable implies exists|w: Seq<char>|
        effective@.fs_write is Only && #[trigger] effective@.fs_write->Only_0.contains(w)
            && components(w) == components(x) by {
        assert(entries[i] == plan.entries@[i]@);
        assert(directory_among(writes, facts, x) || other_among(writes, facts, x));
        let m = choose|m: int| 0 <= m < writes.len() && same_path(#[trigger] writes[m], x);
        lemma_scope_paths(effective, writes[m]);
        assert(writes.contains(writes[m]));
    }
    if one_kind(*host, x, directory) {
        lemma_one_kind(*host, data_paths, x, directory);
        lemma_one_kind(*host, roots, x, directory);
        lemma_one_kind(*host, writes, x, directory);
        if holds_path(with_python(Seq::empty(), host.listings@), x) {
            lemma_python_held(*host, x, directory);
        }
        assert(!holds_path(Seq::<Seq<char>>::empty(), x));
        assert forall|i: int|
            0 <= i < plan.entries@.len() && components((#[trigger] plan.entries@[i]).src@)
                == components(x) implies plan.entries@[i].is_dir == directory by {
            assert(entries[i] == plan.entries@[i]@);
        }
    }
}

/// The fact is the first one on the path.
pub open spec fn first_fact(facts: Seq<PathFact>, x: Seq<char>, j: int) -> bool {
    &&& 0 <= j < facts.len()
    &&& facts[j].path@ == x
    &&& forall|i: int| 0 <= i < j ==> (#[trigger] facts[i]).path@ != x
}

proof fn lemma_items_held(files: Seq<Seq<char>>, items: Seq<TraceView>, facts: Seq<PathFact>, i: int)
    requires
        0 <= i < items.len(),
        item_file(items[i], facts) is Some,
    ensures
        holds_path(with_items(files, items, facts), item_file(items[i], facts)->0),
    decreases items.len(),
{
    let shorter = items.drop_last();
    let rest = with_items(files, shorter, facts);
    let x = item_file(items[i], facts)->0;
    if i < shorter.len() {
        assert(shorter[i] == items[i]);
        lemma_items_held(files, shorter, facts, i);
    }
    if let Some(file) = item_file(items.last(), facts) {
        lemma_holds_inserted(rest, file);
    }
    assert(same_path(x, x));
}

proof fn lemma_closure_held(
    programs: Seq<Seq<char>>,
    fallback: Seq<Seq<char>>,
    host: HostFacts,
    p: int,
    i: int,
)
    requires
        program_files(programs, fallback, true, host) is Ok,
        0 <= p < programs.len(),
        program_location(programs[p], fallback, host) is Some,
        ({
            let items = trace_of(
                host.traces@,
                program_location(programs[p], fallback, host)->0,
            );
            0 <= i < items.len() && item_file(items[i], host.paths@) is Some
        }),
    ensures
        holds_path(
            program_files(programs, fallback, true, host)->Ok_0,
            item_file(
                trace_of(host.traces@, program_location(programs[p], fallback, host)->0)[i],
                host.paths@,
            )->0,
        ),
    decreases programs.len(),
{
    let shorter = programs.drop_last();
    let before = program_files(shorter, fallback, true, host)->Ok_0;
    let bin = program_location(programs.last(), fallback, host)->0;
    let items = trace_of(host.traces@, bin);
    let widened = with_items(before, items, host.paths@);
    let x = item_file(
        trace_of(host.traces@, program_location(programs[p], fallback, host)->0)[i],
        host.paths@,
    )->0;
    lemma_holds_inserted(widened, bin);
    if p < shorter.len() {
        assert(shorter[p] == programs[p]);
        lemma_closure_held(shorter, fallback, host, p, i);
        lemma_items(before, items, host.paths@);
        let y = choose|y: Seq<char>| #[trigger] before.contains(y) && same_path(y, x);
        assert(widened.contains(y));
        assert(holds_path(widened, x));
    } else {
        lemma_items_held(before, items, host.paths@, i);
    }
}

proof fn lemma_start_holds(
    effective: CaveatsView,
    search_dirs: Seq<Seq<char>>,
    norm: NormalizationPolicy,
    host: HostFacts,
    x: Seq<char>,
)
    requires
        holds_path(
            program_files(scope_paths(effective.exec), search_dirs, norm.ldd_closure, host)->Ok_0,
            x,
        ),
    ensures
        holds_path(first_draft(effective, search_dirs, norm, host).files, x),
{
    let found = program_files(
        scope_paths(effective.exec),
        search_dirs,
        norm.ldd_closure,
        host,
    )->Ok_0;
    lemma_nss(found, found, host.listings@);
    let y = choose|y: Seq<char>| #[trigger] found.contains(y) && same_path(y, x);
    assert(first_draft(effective, search_dirs, norm, host).files.contains(y));
}

/// A file that the draft starts with has an entry in the plan.
proof fn lemma_planned(
    effective: CaveatsView,
    data_paths: Seq<Seq<char>>,
    search_dirs: Seq<Seq<char>>,
    norm: NormalizationPolicy,
    host: HostFacts,
    entries: Seq<EntryView>,
    x: Seq<char>,
) -> (i: int)
    requires
        draft_of(effective, data_paths, search_dirs, norm, host) is Ok,
        entries == drafted(draft_of(effective, data_paths, search_dirs, norm, host)->Ok_0),
        holds_path(first_draft(effective, search_dirs, norm, host).files, x) || holds_path(
            first_draft(effective, search_dirs, norm, host).read,
            x,
        ),
    ensures
        0 <= i < entries.len(),
        components(entries[i].src) == components(x),
{
    let d = lemma_held(effective, data_paths, search_dirs, norm, host, x);
    lemma_entry_of(d, entries, x);
    choose|i: int| 0 <= i < entries.len() && components((#[trigger] entries[i]).src) == components(x)
}

/// Every granted program is found, and has an entry in the plan by its
/// location. Where closures are wanted, so has every library that its loader
/// trace names and that exists, by the name in the trace, and the loader by its
/// location.
#[verifier::rlimit(40)]
pub proof fn law_granted_programs_and_what_they_need_are_in_the_plan(
    effective: &Caveats,
    rootfs: &RootfsPolicy,
    norm: &NormalizationPolicy,
    host: &HostFacts,
    plan: RootfsPlan,
    program: &str,
    found: Option<String>,
    location: &str,
    trace: Vec<TraceItem>,
)
    requires
        call_ensures(
            build_rootfs_plan,
            (effective, rootfs, norm, host),
            Ok::<RootfsPlan, String>(plan),
        ),
        call_ensures(resolve_program, (program, &rootfs.search_dirs, host), found),
        effective@.exec is Only && effective@.exec->Only_0.contains(program@),
        found is Some ==> location@ == found->0@,
        call_ensures(look_up_trace, (&host.traces, location), trace),
    ensures
        found is Some,
        exists|i: int|
            0 <= i < plan.entries@.len() && components((#[trigger] plan.entries@[i]).src@)
                == components(location@),
        forall|t: int, k: int|
            norm.ldd_closure && 0 <= t < trace@.len() && 0 <= k < host.paths@.len()
                && #[trigger] trace@[t] is Library && (#[trigger] host.paths@[k]).path@
                == trace@[t]->Library_0@ ==> exists|i: int|
                0 <= i < plan.entries@.len() && components((#[trigger] plan.entries@[i]).src@)
                    == components(trace@[t]->Library_0@),
        forall|t: int, k: int|
            norm.ldd_closure && 0 <= t < trace@.len() && #[trigger] trace@[t] is Loader
                && #[trigger] first_fact(host.paths@, trace@[t]->Loader_0@, k)
                && host.paths@[k].canonical is Some ==> exists|i: int|
                0 <= i < plan.entries@.len() && components((#[trigger] plan.entries@[i]).src@)
                    == components(host.paths@[k].canonical->0@),
{
    let data_paths = rootfs.data_paths.resolved();
    let dirs = views(rootfs.search_dirs@);
    let programs = scope_paths(effective@.exec);
    let entries = views(plan.entries@);
    lemma_scope_paths(effective, program@);
    lemma_program_files(programs, dirs, norm.ldd_closure, *host);
    let p = choose|p: int| 0 <= p < programs.len() && programs[p] == program@;
    assert(program_location(programs[p], dirs, *host) is Some);
    lemma_start_holds(effective@, dirs, *norm, *host, location@);
    let i = lemma_planned(effective@, data_paths, dirs, *norm, *host, entries, location@);
    assert(plan.entries@[i]@ == entries[i]);
    if norm.ldd_closure {
        let items = trace_of(host.traces@, location@);
        assert(items == views(trace@));
        assert forall|t: int, k: int|
            0 <= t < trace@.len() && 0 <= k < host.paths@.len() && #[trigger] trace@[t] is Library
                && (#[trigger] host.paths@[k]).path@ == trace@[t]->Library_0@ implies exists|i: int|
            0 <= i < plan.entries@.len() && components((#[trigger] plan.entries@[i]).src@)
                == components(trace@[t]->Library_0@) by {
            let x = trace@[t]->Library_0@;
            assert(items[t] == trace@[t]@);
            let j = lemma_fact(host.paths@, x, k);
            lemma_closure_held(programs, dirs, *host, p, t);
            lemma_start_holds(effective@, dirs, *norm, *host, x);
            let i = lemma_planned(effective@, data_paths, dirs, *norm, *host, entries, x);
            assert(plan.entries@[i]@ == entries[i]);
        }
        assert forall|t: int, k: int|
            0 <= t < trace@.len() && #[trigger] trace@[t] is Loader && #[trigger] first_fact(
                host.paths@,
                trace@[t]->Loader_0@,
                k,
            ) && host.paths@[k].canonical is Some implies exists|i: int|
            0 <= i < plan.entries@.len() && components((#[trigger] plan.entries@[i]).src@)
                == components(host.paths@[k].canonical->0@) by {
            let x = trace@[t]->Loader_0@;
            let c = host.paths@[k].canonical->0@;
            assert(items[t] == trace@[t]@);
            let j = lemma_fact(host.paths@, x, k);
            assert(j == k);
            lemma_closure_held(programs, dirs, *host, p, t);
            lemma_start_holds(effective@, dirs, *norm, *host, c);
            let i = lemma_planned(effective@, data_paths, dirs, *norm, *host, entries, c);
            assert(plan.entries@[i]@ == entries[i]);
        }
    }
}

proof fn lemma_modules_held(files: Seq<Seq<char>>, entries: Seq<DirEntry>, e: int)
    requires
        0 <= e < entries.len(),
        is_nss_module(entries[e]),
        entries[e].canonical is Some,
    ensures
        holds_path(with_modules(files, entries), entries[e].canonical->0@),
    decreases entries.len(),
{
    let shorter = entries.drop_last();
    let rest = with_modules(files, shorter);
    let x = entries[e].canonical->0@;
    if let Some(c) = entries.last().canonical {
        lemma_holds_inserted(rest, c@);
    }
    assert(same_path(x, x));
    if e < shorter.len() {
        assert(shorter[e] == entries[e]);
        lemma_modules_held(files, shorter, e);
    }
}

proof fn lemma_nss_held(
    files: Seq<Seq<char>>,
    seen: Seq<Seq<char>>,
    listings: Seq<Listing>,
    s: int,
    l: Listing,
    e: int,
)
    requires
        0 <= s < seen.len(),
        is_libc(seen[s]),
        listing_of(listings, components(seen[s]).drop_last()) == Some(l),
        0 <= e < l.entries@.len(),
        is_nss_module(l.entries@[e]),
        l.entries@[e].canonical is Some,
    ensures
        holds_path(with_nss(files, seen, listings), l.entries@[e].canonical->0@),
    decreases seen.len(),
{
    let shorter = seen.drop_last();
    let rest = with_nss(files, shorter, listings);
    let x = l.entries@[e].canonical->0@;
    if s < shorter.len() {
        assert(shorter[s] == seen[s]);
        lemma_nss_held(files, shorter, listings, s, l, e);
        if is_libc(seen.last()) {
            if let Some(m) = listing_of(listings, components(seen.last()).drop_last()) {
                lemma_modules(rest, m.entries@);
                let y = choose|y: Seq<char>| #[trigger] rest.contains(y) && same_path(y, x);
                assert(with_modules(rest, m.entries@).contains(y));
            }
        }
    } else {
        lemma_modules_held(rest, l.entries@, e);
    }
}

proof fn lemma_begins_with_libc(name: Seq<char>)
    requires
        name.len() >= 7 && name.take(7) == seq!['l', 'i', 'b', 'c', '.', 's', 'o'],
    ensures
        begins_with(name, "libc.so"@),
{
    reveal_strlit("libc.so");
    assert("libc.so"@ =~= seq!['l', 'i', 'b', 'c', '.', 's', 'o']);
    assert(name.subrange(0, 7) =~= name.take(7));
}

proof fn lemma_is_module(entry: DirEntry, front: Seq<char>, back: Seq<char>)
    requires
        !entry.is_dir,
        entry.name@ == seq!['l', 'i', 'b', 'n', 's', 's', '_'] + front + seq!['.', 's', 'o'] + back,
    ensures
        is_nss_module(entry),
{
    reveal_strlit("libnss_");
    reveal_strlit(".so");
    let name = entry.name@;
    let head = seq!['l', 'i', 'b', 'n', 's', 's', '_'];
    assert("libnss_"@ =~= head);
    assert(".so"@ =~= seq!['.', 's', 'o']);
    assert(name.subrange(0, 7) =~= head);
    let n = (head + front).len() as int;
    assert(name.subrange(n, n + 3) =~= ".so"@);
    assert(occurs_at(".so"@, name, n));
}

/// Where they are wanted, the name-service modules beside the C library of a
/// granted program have entries in the plan: of the directory that holds a file
/// whose name begins with `libc.so`, every file whose name begins with
/// `libnss_` and holds `.so`, by its location.
#[verifier::rlimit(60)]
#[verifier::spinoff_prover]
pub proof fn law_name_service_modules_are_in_the_plan(
    effective: &Caveats,
    rootfs: &RootfsPolicy,
    norm: &NormalizationPolicy,
    host: &HostFacts,
    plan: RootfsPlan,
    program: &str,
    found: Option<String>,
    location: &str,
    trace: Vec<TraceItem>,
    t: int,
    k: int,
    l: int,
    e: int,
    dir: Seq<char>,
    libc: Seq<char>,
    front: Seq<char>,
    back: Seq<char>,
)
    requires
        call_ensures(
            build_rootfs_plan,
            (effective, rootfs, norm, host),
            Ok::<RootfsPlan, String>(plan),
        ),
        call_ensures(resolve_program, (program, &rootfs.search_dirs, host), found),
        effective@.exec is Only && effective@.exec->Only_0.contains(program@),
        found is Some ==> location@ == found->0@,
        call_ensures(look_up_trace, (&host.traces, location), trace),
        norm.ldd_closure && norm.nss_closure_fallback,
        0 <= t < trace@.len() && trace@[t] is Library,
        0 <= k < host.paths@.len() && host.paths@[k].path@ == trace@[t]->Library_0@,
        trace@[t]->Library_0@ == dir.push('/') + libc,
        dir.len() > 0,
        !libc.contains('/'),
        libc.len() >= 7 && libc.take(7) == seq!['l', 'i', 'b', 'c', '.', 's', 'o'],
        0 <= l < host.listings@.len(),
        components(host.listings@[l].dir@) == components(dir),
        forall|m: int|
            0 <= m < l ==> components((#[trigger] host.listings@[m]).dir@) != components(dir),
        0 <= e < host.listings@[l].entries@.len(),
        !host.listings@[l].entries@[e].is_dir,
        host.listings@[l].entries@[e].canonical is Some,
        host.listings@[l].entries@[e].name@ == seq!['l', 'i', 'b', 'n', 's', 's', '_'] + front
            + seq!['.', 's', 'o'] + back,
    ensures
        exists|i: int|
            0 <= i < plan.entries@.len() && components((#[trigger] plan.entries@[i]).src@)
                == components(host.listings@[l].entries@[e].canonical->0@),
{
    let data_paths = rootfs.data_paths.resolved();
    let dirs = views(rootfs.search_dirs@);
    let programs = scope_paths(effective@.exec);
    let entries = views(plan.entries@);
    let x = trace@[t]->Library_0@;
    lemma_scope_paths(effective, program@);
    lemma_program_files(programs, dirs, true, *host);
    let p = choose|p: int| 0 <= p < programs.len() && programs[p] == program@;
    let items = trace_of(host.traces@, location@);
    assert(items == views(trace@));
    assert(items[t] == trace@[t]@);
    let j = lemma_fact(host.paths@, x, k);
    lemma_closure_held(programs, dirs, *host, p, t);
    let files = program_files(programs, dirs, true, *host)->Ok_0;
    let y = choose|y: Seq<char>| #[trigger] files.contains(y) && same_path(y, x);
    let s = choose|s: int| 0 <= s < files.len() && files[s] == y;
    assert(libc != seq!['.'] && libc != seq!['.', '.']);
    law_a_file_name_stands_last(dir, libc);
    law_components_are_the_names_between_separators(dir, libc);
    assert(components(y) == components(dir).push(libc));
    assert(components(y).drop_last() =~= components(dir));
    assert(file_name(y) == file_name(x));
    lemma_begins_with_libc(libc);
    lemma_first_listing(host.listings@, components(dir), l);
    let listing = host.listings@[l];
    lemma_is_module(listing.entries@[e], front, back);
    lemma_nss_held(files, files, host.listings@, s, listing, e);
    let c = listing.entries@[e].canonical->0@;
    let i = lemma_planned(effective@, data_paths, dirs, *norm, *host, entries, c);
    assert(plan.entries@[i]@ == entries[i]);
}

proof fn lemma_first_listing(listings: Seq<Listing>, dir: Seq<Seq<char>>, l: int)
    requires
        0 <= l < listings.len(),
        components(listings[l].dir@) == dir,
        forall|m: int| 0 <= m < l ==> components((#[trigger] listings[m]).dir@) != dir,
    ensures
        listing_of(listings, dir) == Some(listings[l]),
    decreases listings.len(),
{
    if l > 0 {
        let rest = listings.subrange(1, listings.len() as int);
        assert(components(listings[0].dir@) != dir);
        assert(rest[l - 1] == listings[l]);
        assert forall|m: int| 0 <= m < l - 1 implies components((#[trigger] rest[m]).dir@)
            != dir by {
            assert(rest[m] == listings[m + 1]);
        }
        lemma_first_listing(rest, dir, l - 1);
    }
}

proof fn lemma_python_entry_held(dirs: Seq<Seq<char>>, base: Seq<char>, entries: Seq<DirEntry>, x: Seq<char>)
    ensures
        holds_path(dirs, x) ==> holds_path(with_python_entries(dirs, base, entries), x),
        forall|e: int|
            0 <= e < entries.len() && (#[trigger] entries[e]).is_dir && begins_with(
                entries[e].name@,
                "python3"@,
            ) && same_path(joined(base, entries[e].name@), x) ==> holds_path(
                with_python_entries(dirs, base, entries),
                x,
            ),
    decreases entries.len(),
{
    if entries.len() > 0 {
        let shorter = entries.drop_last();
        let rest = with_python_entries(dirs, base, shorter);
        lemma_python_entry_held(dirs, base, shorter, x);
        lemma_holds_inserted(rest, joined(base, entries.last().name@));
        assert forall|e: int|
            0 <= e < entries.len() && (#[trigger] entries[e]).is_dir && begins_with(
                entries[e].name@,
                "python3"@,
            ) && same_path(joined(base, entries[e].name@), x) implies holds_path(
            with_python_entries(dirs, base, entries),
            x,
        ) by {
            if e < shorter.len() {
                assert(shorter[e] == entries[e]);
            }
        }
    }
}

/// Where it is wanted, the standard library of a granted Python has entries in
/// the plan: below `/usr/lib`, `/usr/local/lib` and `/usr/lib64`, every
/// directory whose name begins with `python3`. A program is a Python where its
/// name begins with `python`, wherever it lies.
#[verifier::rlimit(40)]
pub proof fn law_the_python_library_is_in_the_plan(
    effective: &Caveats,
    rootfs: &RootfsPolicy,
    norm: &NormalizationPolicy,
    host: &HostFacts,
    plan: RootfsPlan,
    dir: Seq<char>,
    program: Seq<char>,
    base: Seq<char>,
    l: int,
    e: int,
    rest: Seq<char>,
)
    requires
        call_ensures(
            build_rootfs_plan,
            (effective, rootfs, norm, host),
            Ok::<RootfsPlan, String>(plan),
        ),
        norm.python_closure_fallback,
        !program.contains('/'),
        program.len() >= 6 && program.take(6) == seq!['p', 'y', 't', 'h', 'o', 'n'],
        effective@.exec is Only && (effective@.exec->Only_0.contains(program)
            || effective@.exec->Only_0.contains(dir.push('/') + program)),
        base == "/usr/lib"@ || base == "/usr/local/lib"@ || base == "/usr/lib64"@,
        0 <= l < host.listings@.len(),
        components(host.listings@[l].dir@) == components(base),
        forall|m: int|
            0 <= m < l ==> components((#[trigger] host.listings@[m]).dir@) != components(base),
        0 <= e < host.listings@[l].entries@.len(),
        host.listings@[l].entries@[e].is_dir,
        host.listings@[l].entries@[e].name@ == seq!['p', 'y', 't', 'h', 'o', 'n', '3'] + rest,
        !rest.contains('/'),
    ensures
        exists|i: int|
            0 <= i < plan.entries@.len() && components((#[trigger] plan.entries@[i]).src@)
                == components(base).push(host.listings@[l].entries@[e].name@),
{
    reveal_strlit("python");
    reveal_strlit("python3");
    reveal_strlit("/usr/lib");
    reveal_strlit("/usr/local/lib");
    reveal_strlit("/usr/lib64");
    let data_paths = rootfs.data_paths.resolved();
    let dirs = views(rootfs.search_dirs@);
    let programs = scope_paths(effective@.exec);
    let entries = views(plan.entries@);
    let listing = host.listings@[l];
    let name = listing.entries@[e].name@;
    let head = seq!['p', 'y', 't', 'h', 'o', 'n', '3'];
    let whole = if effective@.exec->Only_0.contains(program) {
        program
    } else {
        dir.push('/') + program
    };
    lemma_scope_paths(effective, whole);
    assert("python"@ =~= seq!['p', 'y', 't', 'h', 'o', 'n']);
    assert(program.subrange(0, 6) =~= program.take(6));
    assert(begins_with(program, "python"@));
    assert(program.len() >= 6);
    assert(program != seq!['.'] && program != seq!['.', '.']);
    law_a_file_name_stands_last(dir, program);
    assert(is_python(whole));
    let w = choose|w: int| 0 <= w < programs.len() && programs[w] == whole;
    assert(wants_python(programs)) by {
        assert(is_python(programs[w]));
    }
    assert("python3"@ =~= head);
    assert(name.subrange(0, 7) =~= head);
    assert(!name.contains('/')) by {
        if name.contains('/') {
            let k = choose|k: int| 0 <= k < name.len() && name[k] == '/';
            if k >= 7 {
                assert(rest.contains(rest[k - 7]));
            }
        }
    }
    assert(follows(name));
    let x = joined(base, name);
    lemma_entry_components(base, name);
    lemma_first_listing(host.listings@, components(base), l);
    let none = Seq::<Seq<char>>::empty();
    let one = with_python_base(none, "/usr/lib"@, host.listings@);
    let two = with_python_base(one, "/usr/local/lib"@, host.listings@);
    let three = with_python_base(two, "/usr/lib64"@, host.listings@);
    lemma_python_entry_held(none, "/usr/lib"@, listing.entries@, x);
    lemma_python_entry_held(one, "/usr/local/lib"@, listing.entries@, x);
    lemma_python_entry_held(two, "/usr/lib64"@, listing.entries@, x);
    if let Some(m) = listing_of(host.listings@, components("/usr/local/lib"@)) {
        lemma_python_entry_held(one, "/usr/local/lib"@, m.entries@, x);
    }
    if let Some(m) = listing_of(host.listings@, components("/usr/lib64"@)) {
        lemma_python_entry_held(two, "/usr/lib64"@, m.entries@, x);
    }
    assert(begins_with(listing.entries@[e].name@, "python3"@));
    assert(holds_path(three, x));
    let i = lemma_planned(effective@, data_paths, dirs, *norm, *host, entries, x);
    assert(plan.entries@[i]@ == entries[i]);
}

/// Every root that is granted for writing and exists has an entry in the plan
/// that can be written; and whatever can be written there is granted for
/// writing.
#[verifier::rlimit(40)]
pub proof fn law_what_is_written_is_what_is_granted_for_writing(
    effective: &Caveats,
    rootfs: &RootfsPolicy,
    norm: &NormalizationPolicy,
    host: &HostFacts,
    plan: RootfsPlan,
)
    requires
        call_ensures(
            build_rootfs_plan,
            (effective, rootfs, norm, host),
            Ok::<RootfsPlan, String>(plan),
        ),
    ensures
        effective@.exec is Only,
        forall|x: Seq<char>, k: int|
            effective@.fs_write is Only && #[trigger] effective@.fs_write->Only_0.contains(x) && 0
                <= k < host.paths@.len() && (#[trigger] host.paths@[k]).path@ == x ==> {
                &&& exists|i: int|
                    0 <= i < plan.entries@.len() && components((#[trigger] plan.entries@[i]).src@)
                        == components(x)
                &&& forall|i: int|
                    0 <= i < plan.entries@.len() && components((#[trigger] plan.entries@[i]).src@)
                        == components(x) ==> plan.entries@[i].writable && (one_kind(
                        *host,
                        x,
                        host.paths@[k].kind == PathKind::Directory,
                    ) ==> plan.entries@[i].is_dir == (host.paths@[k].kind == PathKind::Directory))
            },
        forall|i: int|
            0 <= i < plan.entries@.len() && (#[trigger] plan.entries@[i]).writable
                ==> effective@.fs_write is Only && exists|w: Seq<char>| #[trigger]
                effective@.fs_write->Only_0.contains(w) && components(w) == components(
                    plan.entries@[i].src@,
                ),
{
    let facts = host.paths@;
    let data_paths = rootfs.data_paths.resolved();
    let dirs = views(rootfs.search_dirs@);
    let writes = scope_paths(effective@.fs_write);
    let entries = views(plan.entries@);
    assert forall|x: Seq<char>, k: int|
        effective@.fs_write is Only && #[trigger] effective@.fs_write->Only_0.contains(x) && 0 <= k
            < host.paths@.len() && (#[trigger] host.paths@[k]).path@ == x implies {
        &&& exists|i: int|
            0 <= i < plan.entries@.len() && components((#[trigger] plan.entries@[i]).src@)
                == components(x)
        &&& forall|i: int|
            0 <= i < plan.entries@.len() && components((#[trigger] plan.entries@[i]).src@)
                == components(x) ==> plan.entries@[i].writable && (one_kind(
                *host,
                x,
                host.paths@[k].kind == PathKind::Directory,
            ) ==> plan.entries@[i].is_dir == (host.paths@[k].kind == PathKind::Directory))
    } by {
        let d = lemma_held(effective@, data_paths, dirs, *norm, *host, x);
        lemma_entry_of(d, entries, x);
        lemma_scope_paths(effective, x);
        let j = lemma_fact(facts, x, k);
        let m = choose|m: int| 0 <= m < writes.len() && writes[m] == x;
        assert(same_path(writes[m], x));
        assert(directory_among(writes, facts, x) || other_among(writes, facts, x));
        let i = choose|i: int|
            0 <= i < entries.len() && components((#[trigger] entries[i]).src) == components(x);
        assert(plan.entries@[i]@ == entries[i]);
        let directory = host.paths@[k].kind == PathKind::Directory;
        assert forall|i: int|
            0 <= i < plan.entries@.len() && components((#[trigger] plan.entries@[i]).src@)
                == components(x) implies plan.entries@[i].writable && (one_kind(*host, x, directory)
            ==> plan.entries@[i].is_dir == directory) by {
            assert(entries[i] == plan.entries@[i]@);
            if one_kind(*host, x, directory) {
                lemma_one_kind(*host, writes, x, directory);
            }
        }
    }
    assert forall|i: int|
        0 <= i < plan.entries@.len() && (#[trigger] plan.entries@[i]).writable implies
    effective@.fs_write is Only && exists|w: Seq<char>| #[trigger]
        effective@.fs_write->Only_0.contains(w) && components(w) == components(
            plan.entries@[i].src@,
        ) by {
        let x = plan.entries@[i].src@;
        let d = lemma_held(effective@, data_paths, dirs, *norm, *host, x);
        lemma_entry_of(d, entries, x);
        assert(entries[i] == plan.entries@[i]@);
        assert(directory_among(writes, facts, x) || other_among(writes, facts, x));
        let m = choose|m: int| 0 <= m < writes.len() && same_path(#[trigger] writes[m], x);
        lemma_scope_paths(effective, writes[m]);
        assert(writes.contains(writes[m]));
        assert(effective@.fs_write->Only_0.contains(writes[m]));
    }
}

/// The location of a granted program: that of the first place which the host
/// calls a regular file. A path stands for itself; a bare name is looked for in
/// the directories of the search path, in their order, or in the fallback
/// where the search path names none.
pub proof fn law_a_program_is_found_where_it_is_first(
    entry: &str,
    fallback: &Vec<String>,
    host: &HostFacts,
    r: Option<String>,
    dirs: Vec<String>,
    places: Vec<String>,
)
    requires
        call_ensures(resolve_program, (entry, fallback, host), r),
        call_ensures(search_dirs, (&host.search_path, fallback), dirs),
        call_ensures(program_candidates, (entry, &dirs), places),
    ensures
        entry@.contains('/') ==> places@.len() == 1 && places@[0]@ == entry@,
        !entry@.contains('/') ==> places@.len() == dirs@.len() && forall|i: int|
            0 <= i < dirs@.len() ==> (#[trigger] places@[i])@ == (if dirs@[i]@.len() == 0
                || dirs@[i]@[dirs@[i]@.len() - 1] == '/' {
                dirs@[i]@ + entry@
            } else {
                dirs@[i]@ + seq!['/'] + entry@
            }),
        forall|i: int, j: int|
            0 <= i < places@.len() && #[trigger] first_fact(host.paths@, places@[i]@, j)
                && host.paths@[j].kind == PathKind::File && (forall|a: int, b: int|
                0 <= a < i && #[trigger] first_fact(host.paths@, places@[a]@, b)
                    ==> host.paths@[b].kind != PathKind::File) ==> (r is Some
                <==> host.paths@[j].canonical is Some) && (r is Some ==> r->0@
                == host.paths@[j].canonical->0@),
        (forall|i: int, j: int|
            0 <= i < places@.len() && #[trigger] first_fact(host.paths@, places@[i]@, j)
                ==> host.paths@[j].kind != PathKind::File) ==> r is None,
{
    let facts = host.paths@;
    let q = views(places@);
    assert(q == candidates(entry@, views(dirs@)));
    assert(q.len() == places@.len());
    if entry@.contains('/') {
        assert(q[0] == places@[0]@);
    } else {
        assert(views(dirs@).len() == dirs@.len());
        assert forall|i: int| 0 <= i < dirs@.len() implies (#[trigger] places@[i])@ == (
        if dirs@[i]@.len() == 0 || dirs@[i]@[dirs@[i]@.len() - 1] == '/' {
            dirs@[i]@ + entry@
        } else {
            dirs@[i]@ + seq!['/'] + entry@
        }) by {
            assert(q[i] == places@[i]@);
            assert(views(dirs@)[i] == dirs@[i]@);
            assert(dirs@[i]@ + seq!['/'] + entry@ =~= dirs@[i]@.push('/') + entry@);
        }
    }
    assert forall|i: int, j: int|
        0 <= i < places@.len() && #[trigger] first_fact(facts, places@[i]@, j) && facts[j].kind
            == PathKind::File && (forall|a: int, b: int|
            0 <= a < i && #[trigger] first_fact(facts, places@[a]@, b) ==> facts[b].kind
                != PathKind::File) implies (r is Some <==> facts[j].canonical is Some) && (r is Some
        ==> r->0@ == facts[j].canonical->0@) by {
        assert forall|a: int| 0 <= a < i implies !is_file(facts, #[trigger] q[a]) by {
            assert(q[a] == places@[a]@);
            if is_file(facts, q[a]) {
                let b0 = lemma_fact_back(facts, q[a]);
                let b = lemma_fact(facts, q[a], b0);
                assert(first_fact(facts, places@[a]@, b));
            }
        }
        assert(q[i] == places@[i]@);
        let k = lemma_fact(facts, q[i], j);
        assert(k == j);
        lemma_first_file(q, facts, i);
    }
    if forall|i: int, j: int|
        0 <= i < places@.len() && #[trigger] first_fact(facts, places@[i]@, j) ==> facts[j].kind
            != PathKind::File {
        assert forall|a: int| 0 <= a < q.len() implies !is_file(facts, #[trigger] q[a]) by {
            assert(q[a] == places@[a]@);
            if is_file(facts, q[a]) {
                let b0 = lemma_fact_back(facts, q[a]);
                let b = lemma_fact(facts, q[a], b0);
                assert(first_fact(facts, places@[a]@, b));
            }
        }
        lemma_first_file(q, facts, q.len() as int);
    }
}

spec fn is_file(facts: Seq<PathFact>, path: Seq<char>) -> bool {
    fact_of(facts, path) matches Some(fact) && fact.kind == PathKind::File
}

proof fn lemma_first_file(places: Seq<Seq<char>>, facts: Seq<PathFact>, i: int)
    requires
        0 <= i <= places.len(),
        i < places.len() ==> is_file(facts, places[i]),
        forall|a: int| 0 <= a < i ==> !is_file(facts, #[trigger] places[a]),
    ensures
        i < places.len() ==> first_file(places, facts) == text_view(
            fact_of(facts, places[i])->0.canonical,
        ),
        i == places.len() ==> first_file(places, facts) is None,
    decreases places.len(),
{
    if i > 0 {
        let rest = places.subrange(1, places.len() as int);
        assert(!is_file(facts, places[0]));
        if i < places.len() {
            assert(rest[i - 1] == places[i]);
        }
        assert forall|a: int| 0 <= a < i - 1 implies !is_file(facts, #[trigger] rest[a]) by {
            assert(rest[a] == places[a + 1]);
        }
        lemma_first_file(rest, facts, i - 1);
    }
}

/// The directories of the search path are its pieces between the colons, in
/// their order, without the empty ones; where it is not set, or holds none, the
/// fallback stands in.
pub proof fn law_the_search_path_is_searched_in_order(
    search_path: Option<String>,
    fallback: &Vec<String>,
    r: Vec<String>,
    path: &str,
    pieces: Vec<String>,
)
    requires
        call_ensures(search_dirs, (&search_path, fallback), r),
        search_path is Some ==> path@ == search_path->0@,
        call_ensures(split_text, (path, ':'), pieces),
    ensures
        ({
            let named = pieces@.map_values(|p: String| p@).filter(|p: Seq<char>| p.len() > 0);
            r@.map_values(|d: String| d@) == (if search_path is Some && named.len() > 0 {
                named
            } else {
                fallback@.map_values(|d: String| d@)
            })
        }),
{
    lemma_nonempty(views(pieces@));
    assert(r@.map_values(|d: String| d@) =~= views(r@));
    assert(pieces@.map_values(|p: String| p@) =~= views(pieces@));
    assert(fallback@.map_values(|d: String| d@) =~= views(fallback@));
}

proof fn lemma_nonempty(pieces: Seq<Seq<char>>)
    ensures
        nonempty(pieces) == pieces.filter(|p: Seq<char>| p.len() > 0),
    decreases pieces.len(),
{
    reveal(Seq::filter);
    if pieces.len() > 0 {
        lemma_nonempty(pieces.drop_last());
    }
}

/// A plan is refused only where any program may run, or where a granted one is
/// not found; so with every granted program found there is one.
#[verifier::rlimit(40)]
pub proof fn law_only_a_missing_program_refuses_a_plan(
    effective: &Caveats,
    rootfs: &RootfsPolicy,
    norm: &NormalizationPolicy,
    host: &HostFacts,
    r: Result<RootfsPlan, String>,
)
    requires
        call_ensures(build_rootfs_plan, (effective, rootfs, norm, host), r),
    ensures
        r is Err <==> effective@.exec is All || exists|p: Seq<char>| #[trigger]
            effective@.exec->Only_0.contains(p) && program_location(
                p,
                rootfs.search_dirs@.map_values(|d: String| d@),
                *host,
            ) is None,
{
    let dirs = views(rootfs.search_dirs@);
    assert(rootfs.search_dirs@.map_values(|d: String| d@) =~= dirs);
    if effective@.exec is Only {
        let programs = scope_paths(effective@.exec);
        if r is Err {
            let p = lemma_missing(programs, dirs, norm.ldd_closure, *host);
            lemma_scope_paths(effective, programs[p]);
            assert(programs.contains(programs[p]));
            assert(effective@.exec->Only_0.contains(programs[p]));
        } else {
            lemma_program_files(programs, dirs, norm.ldd_closure, *host);
            assert forall|p: Seq<char>| #[trigger] effective@.exec->Only_0.contains(
                p,
            ) implies program_location(p, dirs, *host) is Some by {
                lemma_scope_paths(effective, p);
                let i = choose|i: int| 0 <= i < programs.len() && programs[i] == p;
                assert(program_location(programs[i], dirs, *host) is Some);
            }
        }
    }
}

proof fn lemma_missing(
    programs: Seq<Seq<char>>,
    fallback: Seq<Seq<char>>,
    closures: bool,
    host: HostFacts,
) -> (p: int)
    requires
        program_files(programs, fallback, closures, host) is Err,
    ensures
        0 <= p < programs.len(),
        program_location(programs[p], fallback, host) is None,
    decreases programs.len(),
{
    let shorter = programs.drop_last();
    if program_files(shorter, fallback, closures, host) is Err {
        let p = lemma_missing(shorter, fallback, closures, host);
        assert(shorter[p] == programs[p]);
        p
    } else {
        programs.len() - 1
    }
}

} // verus!
