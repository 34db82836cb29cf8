//! What holds of every plan: it is in order, it holds the granted programs, it
//! holds nothing that is not accounted for, and a root that is granted for
//! writing is exposed for writing.

use vstd::prelude::*;

use crate::caveats::CaveatsView;
use crate::config::NormalizationPolicy;
use crate::paths::{components, joined};
use crate::rootfs::host::{
    is_directory, is_present, item_file, listing_of, program_location, trace_of, with_items, DirEntry,
    HostFacts, Listing, PathFact, TraceView,
};
use crate::rootfs::order::{
    holds_path, law_path_order_is_total, lemma_inserted, lemma_removed, lemma_without, path_below,
    same_path,
};
use crate::rootfs::{
    draft_of, drafted, entries_of, is_libc, is_nss_module, placed, program_files, scope_paths,
    settled, sorted, wants_python, with_modules, with_nss, with_python, with_python_base, with_python_entries,
    with_reads, with_writes, Draft, EntryView,
};
use crate::text::begins_with;

verus! {

/// The file is a granted program or, with closures, something that one needs.
pub open spec fn from_programs(
    x: Seq<char>,
    programs: Seq<Seq<char>>,
    fallback: Seq<Seq<char>>,
    closures: bool,
    host: HostFacts,
) -> bool {
    exists|i: int|
        0 <= i < programs.len() && #[trigger] from_program(x, programs[i], fallback, closures, host)
}

/// The file is this program or, with closures, something that it needs.
pub open spec fn from_program(
    x: Seq<char>,
    program: Seq<char>,
    fallback: Seq<Seq<char>>,
    closures: bool,
    host: HostFacts,
) -> bool {
    program_location(program, fallback, host) matches Some(bin) && (x == bin || (closures
        && needed(x, trace_of(host.traces@, bin), host.paths@)))
}

/// The file is one of the items of a loader trace.
pub open spec fn needed(x: Seq<char>, items: Seq<TraceView>, facts: Seq<PathFact>) -> bool {
    exists|i: int| 0 <= i < items.len() && #[trigger] item_file(items[i], facts) == Some(x)
}

/// The entry is a name-service module with this location.
pub open spec fn module_at(entry: DirEntry, x: Seq<char>) -> bool {
    is_nss_module(entry) && (entry.canonical matches Some(c) && c@ == x)
}

/// The file is a name-service module in the directory of this C library.
pub open spec fn module_beside(x: Seq<char>, libc: Seq<char>, listings: Seq<Listing>) -> bool {
    is_libc(libc) && (listing_of(listings, components(libc).drop_last()) matches Some(l) && exists|
        e: int,
    |
        0 <= e < l.entries@.len() && #[trigger] module_at(l.entries@[e], x))
}

/// The file is a name-service module beside one of the files.
pub open spec fn from_modules(
    x: Seq<char>,
    files: Seq<Seq<char>>,
    listings: Seq<Listing>,
) -> bool {
    exists|i: int| 0 <= i < files.len() && #[trigger] module_beside(x, files[i], listings)
}

/// The entry is a directory of a Python standard library, with this path below
/// the base.
pub open spec fn python_at(entry: DirEntry, base: Seq<char>, x: Seq<char>) -> bool {
    begins_with(entry.name@, "python3"@) && entry.is_dir && x == joined(base, entry.name@)
}

/// The directory is one of a Python standard library below the base.
pub open spec fn python_below(x: Seq<char>, base: Seq<char>, listings: Seq<Listing>) -> bool {
    listing_of(listings, components(base)) matches Some(l) && exists|e: int|
        0 <= e < l.entries@.len() && #[trigger] python_at(l.entries@[e], base, x)
}

/// The directory is one of a Python standard library.
pub open spec fn from_python(x: Seq<char>, listings: Seq<Listing>) -> bool {
    ||| python_below(x, "/usr/lib"@, listings)
    ||| python_below(x, "/usr/local/lib"@, listings)
    ||| python_below(x, "/usr/lib64"@, listings)
}

/// What may stand in a plan: the granted programs and what they need, the
/// name-service modules beside their C library, the standard library of a
/// granted Python, the runtime data, and the granted roots.
pub open spec fn accounted(
    x: Seq<char>,
    effective: CaveatsView,
    data_paths: Seq<Seq<char>>,
    search_dirs: Seq<Seq<char>>,
    norm: NormalizationPolicy,
    host: HostFacts,
) -> bool {
    ||| from_programs(x, scope_paths(effective.exec), search_dirs, norm.ldd_closure, host)
    ||| norm.nss_closure_fallback && (program_files(
        scope_paths(effective.exec),
        search_dirs,
        norm.ldd_closure,
        host,
    ) matches Ok(files) && from_modules(x, files, host.listings@))
    ||| norm.python_closure_fallback && wants_python(scope_paths(effective.exec)) && from_python(
        x,
        host.listings@,
    )
    ||| data_paths.contains(x)
    ||| scope_paths(effective.fs_read).contains(x)
    ||| scope_paths(effective.fs_write).contains(x)
}

/// What a loader trace adds.
pub proof fn lemma_items(files: Seq<Seq<char>>, items: Seq<TraceView>, facts: Seq<PathFact>)
    ensures
        forall|x: Seq<char>| #[trigger]
            with_items(files, items, facts).contains(x) ==> files.contains(x) || needed(
                x,
                items,
                facts,
            ),
        forall|x: Seq<char>| files.contains(x) ==> #[trigger] with_items(
            files,
            items,
            facts,
        ).contains(x),
    decreases items.len(),
{
    if items.len() > 0 {
        let shorter = items.drop_last();
        let rest = with_items(files, shorter, facts);
        lemma_items(files, shorter, facts);
        if let Some(file) = item_file(items.last(), facts) {
            lemma_inserted(rest, file);
        }
        assert forall|x: Seq<char>| #[trigger] with_items(files, items, facts).contains(
            x,
        ) implies files.contains(x) || needed(x, items, facts) by {
            if rest.contains(x) {
                if !files.contains(x) {
                    let i = choose|i: int|
                        0 <= i < shorter.len() && #[trigger] item_file(shorter[i], facts) == Some(
                            x,
                        );
                    assert(item_file(items[i], facts) == Some(x));
                }
            } else {
                assert(item_file(items[items.len() - 1], facts) == Some(x));
            }
        }
    }
}

/// What the files of the granted programs are.
pub proof fn lemma_program_files(
    programs: Seq<Seq<char>>,
    fallback: Seq<Seq<char>>,
    closures: bool,
    host: HostFacts,
)
    requires
        program_files(programs, fallback, closures, host) is Ok,
    ensures
        forall|x: Seq<char>| #[trigger]
            program_files(programs, fallback, closures, host)->Ok_0.contains(x) ==> from_programs(
                x,
                programs,
                fallback,
                closures,
                host,
            ),
        forall|i: int|
            0 <= i < programs.len() ==> (program_location(#[trigger] programs[i], fallback, host)
                matches Some(bin) && holds_path(
                program_files(programs, fallback, closures, host)->Ok_0,
                bin,
            )),
    decreases programs.len(),
{
    if programs.len() > 0 {
        let shorter = programs.drop_last();
        let before = program_files(shorter, fallback, closures, host)->Ok_0;
        let bin = program_location(programs.last(), fallback, host)->0;
        let items = trace_of(host.traces@, bin);
        let widened = if closures {
            with_items(before, items, host.paths@)
        } else {
            before
        };
        let files = program_files(programs, fallback, closures, host)->Ok_0;
        lemma_program_files(shorter, fallback, closures, host);
        lemma_items(before, items, host.paths@);
        lemma_inserted(widened, bin);
        assert forall|x: Seq<char>| #[trigger] files.contains(x) implies from_programs(
            x,
            programs,
            fallback,
            closures,
            host,
        ) by {
            if before.contains(x) {
                let i = choose|i: int|
                    0 <= i < shorter.len() && #[trigger] from_program(
                        x,
                        shorter[i],
                        fallback,
                        closures,
                        host,
                    );
                assert(from_program(x, programs[i], fallback, closures, host));
            } else {
                assert(x == bin || widened.contains(x));
                assert(from_program(x, programs[programs.len() - 1], fallback, closures, host));
            }
        }
        assert forall|i: int| 0 <= i < programs.len() implies (program_location(
            #[trigger] programs[i],
            fallback,
            host,
        ) matches Some(b) && holds_path(files, b)) by {
            if i < shorter.len() {
                assert(shorter[i] == programs[i]);
                let b = program_location(shorter[i], fallback, host)->0;
                let y = choose|y: Seq<char>| #[trigger] before.contains(y) && same_path(y, b);
                assert(widened.contains(y));
                assert(files.contains(y));
            }
        }
    }
}

/// What the modules among some entries add.
pub proof fn lemma_modules(files: Seq<Seq<char>>, entries: Seq<DirEntry>)
    ensures
        forall|x: Seq<char>| #[trigger]
            with_modules(files, entries).contains(x) ==> files.contains(x) || exists|e: int|
                0 <= e < entries.len() && #[trigger] module_at(entries[e], x),
        forall|x: Seq<char>| files.contains(x) ==> #[trigger] with_modules(files, entries).contains(
            x,
        ),
    decreases entries.len(),
{
    if entries.len() > 0 {
        let shorter = entries.drop_last();
        let rest = with_modules(files, shorter);
        lemma_modules(files, shorter);
        let entry = entries.last();
        if let Some(c) = entry.canonical {
            lemma_inserted(rest, c@);
        }
        assert forall|x: Seq<char>| #[trigger] with_modules(files, entries).contains(
            x,
        ) implies files.contains(x) || exists|e: int|
            0 <= e < entries.len() && #[trigger] module_at(entries[e], x) by {
            if rest.contains(x) {
                if !files.contains(x) {
                    let e = choose|e: int|
                        0 <= e < shorter.len() && #[trigger] module_at(shorter[e], x);
                    assert(module_at(entries[e], x));
                }
            } else {
                assert(module_at(entries[entries.len() - 1], x));
            }
        }
    }
}

/// What the name-service modules add.
pub proof fn lemma_nss(files: Seq<Seq<char>>, seen: Seq<Seq<char>>, listings: Seq<Listing>)
    ensures
        forall|x: Seq<char>| #[trigger]
            with_nss(files, seen, listings).contains(x) ==> files.contains(x) || from_modules(
                x,
                seen,
                listings,
            ),
        forall|x: Seq<char>| files.contains(x) ==> #[trigger] with_nss(
            files,
            seen,
            listings,
        ).contains(x),
    decreases seen.len(),
{
    if seen.len() > 0 {
        let shorter = seen.drop_last();
        let rest = with_nss(files, shorter, listings);
        lemma_nss(files, shorter, listings);
        let dir = components(seen.last()).drop_last();
        if is_libc(seen.last()) {
            if let Some(l) = listing_of(listings, dir) {
                lemma_modules(rest, l.entries@);
            }
        }
        assert forall|x: Seq<char>| #[trigger] with_nss(files, seen, listings).contains(
            x,
        ) implies files.contains(x) || from_modules(x, seen, listings) by {
            if rest.contains(x) {
                if !files.contains(x) {
                    let i = choose|i: int|
                        0 <= i < shorter.len() && #[trigger] module_beside(
                            x,
                            shorter[i],
                            listings,
                        );
                    assert(module_beside(x, seen[i], listings));
                }
            } else {
                assert(module_beside(x, seen[seen.len() - 1], listings));
            }
        }
    }
}

proof fn lemma_python_entries(dirs: Seq<Seq<char>>, base: Seq<char>, entries: Seq<DirEntry>)
    ensures
        forall|x: Seq<char>| #[trigger]
            with_python_entries(dirs, base, entries).contains(x) ==> dirs.contains(x) || exists|
                e: int,
            |
                0 <= e < entries.len() && #[trigger] python_at(entries[e], base, x),
    decreases entries.len(),
{
    if entries.len() > 0 {
        let shorter = entries.drop_last();
        let rest = with_python_entries(dirs, base, shorter);
        lemma_python_entries(dirs, base, shorter);
        lemma_inserted(rest, joined(base, entries.last().name@));
        assert forall|x: Seq<char>| #[trigger] with_python_entries(dirs, base, entries).contains(
            x,
        ) implies dirs.contains(x) || exists|e: int|
            0 <= e < entries.len() && #[trigger] python_at(entries[e], base, x) by {
            if rest.contains(x) {
                if !dirs.contains(x) {
                    let e = choose|e: int|
                        0 <= e < shorter.len() && #[trigger] python_at(shorter[e], base, x);
                    assert(python_at(entries[e], base, x));
                }
            } else {
                assert(python_at(entries[entries.len() - 1], base, x));
            }
        }
    }
}

proof fn lemma_python_base(dirs: Seq<Seq<char>>, base: Seq<char>, listings: Seq<Listing>)
    ensures
        forall|x: Seq<char>| #[trigger]
            with_python_base(dirs, base, listings).contains(x) ==> dirs.contains(x) || python_below(
                x,
                base,
                listings,
            ),
{
    if let Some(l) = listing_of(listings, components(base)) {
        lemma_python_entries(dirs, base, l.entries@);
    }
}

proof fn lemma_python(listings: Seq<Listing>)
    ensures
        forall|x: Seq<char>| #[trigger]
            with_python(Seq::empty(), listings).contains(x) ==> from_python(x, listings),
{
    let none = Seq::<Seq<char>>::empty();
    let one = with_python_base(none, "/usr/lib"@, listings);
    let two = with_python_base(one, "/usr/local/lib"@, listings);
    lemma_python_base(none, "/usr/lib"@, listings);
    lemma_python_base(one, "/usr/local/lib"@, listings);
    lemma_python_base(two, "/usr/lib64"@, listings);
}

/// The draft holds the path, in whatever sort.
spec fn in_draft(d: Draft, x: Seq<char>) -> bool {
    d.files.contains(x) || d.read.contains(x) || d.write.contains(x) || d.written.contains(x)
}

proof fn lemma_reads(d: Draft, paths: Seq<Seq<char>>, facts: Seq<PathFact>)
    ensures
        forall|x: Seq<char>| #[trigger]
            in_draft(with_reads(d, paths, facts), x) ==> in_draft(d, x) || paths.contains(x),
        forall|x: Seq<char>| d.files.contains(x) ==> #[trigger] with_reads(
            d,
            paths,
            facts,
        ).files.contains(x),
        forall|x: Seq<char>| #[trigger]
            with_reads(d, paths, facts).read.contains(x) ==> d.read.contains(x) || is_directory(
                facts,
                x,
            ),
        with_reads(d, paths, facts).write == d.write,
        with_reads(d, paths, facts).written == d.written,
    decreases paths.len(),
{
    if paths.len() > 0 {
        let shorter = paths.drop_last();
        let rest = with_reads(d, shorter, facts);
        let path = paths.last();
        lemma_reads(d, shorter, facts);
        lemma_inserted(rest.files, path);
        lemma_inserted(rest.read, path);
        assert forall|x: Seq<char>| #[trigger] in_draft(
            with_reads(d, paths, facts),
            x,
        ) implies in_draft(d, x) || paths.contains(x) by {
            if in_draft(rest, x) {
                if shorter.contains(x) {
                    let k = choose|k: int| 0 <= k < shorter.len() && shorter[k] == x;
                    assert(paths[k] == x);
                }
            } else {
                assert(x == path);
                assert(paths[paths.len() - 1] == x);
            }
        }
    }
}

/// The draft holds the path for writing.
spec fn to_write(d: Draft, x: Seq<char>) -> bool {
    holds_path(d.write, x) || holds_path(d.written, x)
}

proof fn lemma_writes(d: Draft, paths: Seq<Seq<char>>, facts: Seq<PathFact>)
    requires
        d.write.len() == 0,
        d.written.len() == 0,
    ensures
        forall|x: Seq<char>| #[trigger]
            with_writes(d, paths, facts).files.contains(x) ==> d.files.contains(x),
        forall|x: Seq<char>| #[trigger]
            with_writes(d, paths, facts).read.contains(x) ==> d.read.contains(x),
        forall|x: Seq<char>| #[trigger]
            with_writes(d, paths, facts).write.contains(x) ==> paths.contains(x) && is_directory(
                facts,
                x,
            ),
        forall|x: Seq<char>| #[trigger]
            with_writes(d, paths, facts).written.contains(x) ==> paths.contains(x)
                && !is_directory(facts, x),
        forall|x: Seq<char>|
            d.files.contains(x) ==> #[trigger] with_writes(d, paths, facts).files.contains(x)
                || to_write(with_writes(d, paths, facts), x),
        forall|i: int|
            0 <= i < paths.len() && is_present(facts, #[trigger] paths[i]) ==> to_write(
                with_writes(d, paths, facts),
                paths[i],
            ) && !holds_path(with_writes(d, paths, facts).files, paths[i]) && !holds_path(
                with_writes(d, paths, facts).read,
                paths[i],
            ),
    decreases paths.len(),
{
    if paths.len() > 0 {
        let shorter = paths.drop_last();
        let rest = with_writes(d, shorter, facts);
        let done = with_writes(d, paths, facts);
        let path = paths.last();
        lemma_writes(d, shorter, facts);
        assert(paths[paths.len() - 1] == path);
        assert(paths.contains(path));
        assert forall|x: Seq<char>| #[trigger] shorter.contains(x) implies paths.contains(x) by {
            let k = choose|k: int| 0 <= k < shorter.len() && shorter[k] == x;
            assert(paths[k] == x);
        }
        if is_present(facts, path) {
            lemma_removed(rest.files, path);
            lemma_removed(rest.read, path);
            lemma_removed(rest.write, path);
            lemma_removed(rest.written, path);
            lemma_inserted(rest.write, path);
            lemma_inserted(rest.written, path);
            assert(to_write(done, path));
            assert forall|x: Seq<char>| to_write(rest, x) implies #[trigger] to_write(done, x) by {
                if !same_path(path, x) {
                    if holds_path(rest.write, x) {
                        let y = choose|y: Seq<char>| #[trigger]
                            rest.write.contains(y) && same_path(y, x);
                        assert(done.write.contains(y));
                    } else {
                        let y = choose|y: Seq<char>| #[trigger]
                            rest.written.contains(y) && same_path(y, x);
                        assert(done.written.contains(y));
                    }
                } else if holds_path(done.write, path) {
                    let y = choose|y: Seq<char>| #[trigger]
                        done.write.contains(y) && same_path(y, path);
                    assert(holds_path(done.write, x));
                } else {
                    let y = choose|y: Seq<char>| #[trigger]
                        done.written.contains(y) && same_path(y, path);
                    assert(holds_path(done.written, x));
                }
            }
            assert forall|x: Seq<char>| d.files.contains(x) implies #[trigger] done.files.contains(
                x,
            ) || to_write(done, x) by {
                if !done.files.contains(x) && rest.files.contains(x) {
                    assert(same_path(x, path));
                    assert(components(x) == components(path));
                    if holds_path(done.write, path) {
                        let y = choose|y: Seq<char>| #[trigger]
                            done.write.contains(y) && same_path(y, path);
                        assert(holds_path(done.write, x));
                    } else {
                        let y = choose|y: Seq<char>| #[trigger]
                            done.written.contains(y) && same_path(y, path);
                        assert(holds_path(done.written, x));
                    }
                }
            }
        }
        assert forall|i: int|
            0 <= i < paths.len() && is_present(facts, #[trigger] paths[i]) implies to_write(
            done,
            paths[i],
        ) && !holds_path(done.files, paths[i]) && !holds_path(done.read, paths[i]) by {
            let p = paths[i];
            if i < shorter.len() {
                assert(shorter[i] == p);
            }
            if holds_path(done.read, p) {
                let z = choose|z: Seq<char>| #[trigger] done.read.contains(z) && same_path(z, p);
                assert(rest.read.contains(z));
                assert(i < shorter.len());
                assert(holds_path(rest.read, p));
            }
            if holds_path(done.files, p) {
                let z = choose|z: Seq<char>| #[trigger] done.files.contains(z) && same_path(z, p);
                assert(rest.files.contains(z));
                assert(i < shorter.len());
                assert(holds_path(rest.files, p));
            }
        }
    }
}

/// What a list holds after an entry was placed in it.
pub proof fn lemma_placed(list: Seq<EntryView>, entry: EntryView)
    ensures
        forall|e: EntryView| #[trigger]
            placed(list, entry).contains(e) <==> e == entry || list.contains(e),
        placed(list, entry).len() == list.len() + 1,
    decreases list.len(),
{
    let r = placed(list, entry);
    if list.len() == 0 {
        assert(r[0] == entry);
    } else {
        let rest = list.subrange(1, list.len() as int);
        let before = path_below(entry.src, list[0].src);
        let (head, tail) = if before {
            (entry, list)
        } else {
            (list[0], placed(rest, entry))
        };
        if !before {
            lemma_placed(rest, entry);
        }
        assert(r =~= seq![head] + tail);
        assert forall|e: EntryView| #[trigger] r.contains(e) <==> e == entry || list.contains(e) by {
            if r.contains(e) {
                let k = choose|k: int| 0 <= k < r.len() && r[k] == e;
                if k > 0 {
                    assert(tail[k - 1] == e);
                    assert(tail.contains(e));
                    if !before && e != entry {
                        let m = choose|m: int| 0 <= m < rest.len() && rest[m] == e;
                        assert(list[m + 1] == e);
                    }
                } else if !before {
                    assert(list[0] == e);
                }
            }
            if list.contains(e) {
                let k = choose|k: int| 0 <= k < list.len() && list[k] == e;
                if before {
                    assert(r[k + 1] == e);
                } else if k == 0 {
                    assert(r[0] == e);
                } else {
                    assert(rest[k - 1] == e);
                    assert(rest.contains(e));
                    assert(tail.contains(e));
                    let m = choose|m: int| 0 <= m < tail.len() && tail[m] == e;
                    assert(r[m + 1] == e);
                }
            }
            if e == entry {
                if before {
                    assert(r[0] == e);
                } else {
                    assert(tail.contains(e));
                    let m = choose|m: int| 0 <= m < tail.len() && tail[m] == e;
                    assert(r[m + 1] == e);
                }
            }
        }
    }
}

/// Sorting changes neither what a list holds nor its length.
pub proof fn lemma_sorted(list: Seq<EntryView>)
    ensures
        forall|e: EntryView| #[trigger] sorted(list).contains(e) <==> list.contains(e),
        sorted(list).len() == list.len(),
    decreases list.len(),
{
    if list.len() > 0 {
        let shorter = list.drop_last();
        lemma_sorted(shorter);
        lemma_placed(sorted(shorter), list.last());
        assert forall|e: EntryView| #[trigger] sorted(list).contains(e) <==> list.contains(e) by {
            if list.contains(e) {
                let k = choose|k: int| 0 <= k < list.len() && list[k] == e;
                if k < shorter.len() {
                    assert(shorter[k] == e);
                    assert(shorter.contains(e));
                }
            }
            if shorter.contains(e) {
                let k = choose|k: int| 0 <= k < shorter.len() && shorter[k] == e;
                assert(list[k] == e);
            }
            assert(list[list.len() - 1] == list.last());
        }
    }
}

/// What the entries of a draft are.
pub proof fn lemma_drafted(d: Draft, e: EntryView)
    ensures
        drafted(d).contains(e) <==> (d.files.contains(e.src) && !e.writable && !e.is_dir) || (
        d.read.contains(e.src) && !e.writable && e.is_dir) || (d.write.contains(e.src) && e.writable
            && e.is_dir) || (d.written.contains(e.src) && e.writable && !e.is_dir),
{
    let f = entries_of(d.files, false, false);
    let r = entries_of(d.read, false, true);
    let w = entries_of(d.write, true, true);
    let v = entries_of(d.written, true, false);
    let all = f + r + w + v;
    lemma_sorted(all);
    lemma_entries(d.files, false, false, e);
    lemma_entries(d.read, false, true, e);
    lemma_entries(d.write, true, true, e);
    lemma_entries(d.written, true, false, e);
    if all.contains(e) {
        let k = choose|k: int| 0 <= k < all.len() && all[k] == e;
        if k < f.len() {
            assert(f[k] == e);
        } else if k < f.len() + r.len() {
            assert(r[k - f.len()] == e);
        } else if k < f.len() + r.len() + w.len() {
            assert(w[k - f.len() - r.len()] == e);
        } else {
            assert(v[k - f.len() - r.len() - w.len()] == e);
        }
    }
    if f.contains(e) {
        let k = choose|k: int| 0 <= k < f.len() && f[k] == e;
        assert(all[k] == e);
    }
    if r.contains(e) {
        let k = choose|k: int| 0 <= k < r.len() && r[k] == e;
        assert(all[k + f.len()] == e);
    }
    if w.contains(e) {
        let k = choose|k: int| 0 <= k < w.len() && w[k] == e;
        assert(all[k + f.len() + r.len()] == e);
    }
    if v.contains(e) {
        let k = choose|k: int| 0 <= k < v.len() && v[k] == e;
        assert(all[k + f.len() + r.len() + w.len()] == e);
    }
}

proof fn lemma_entries(paths: Seq<Seq<char>>, writable: bool, is_dir: bool, e: EntryView)
    ensures
        entries_of(paths, writable, is_dir).contains(e) <==> paths.contains(e.src) && e.writable
            == writable && e.is_dir == is_dir,
{
    let q = entries_of(paths, writable, is_dir);
    if q.contains(e) {
        let k = choose|k: int| 0 <= k < q.len() && q[k] == e;
        assert(paths[k] == e.src);
    }
    if paths.contains(e.src) && e.writable == writable && e.is_dir == is_dir {
        let k = choose|k: int| 0 <= k < paths.len() && paths[k] == e.src;
        assert(q[k] == e);
    }
}

/// The host calls the path a directory.
pub open spec fn called_directory(x: Seq<char>, host: HostFacts) -> bool {
    is_directory(host.paths@, x) || from_python(x, host.listings@)
}

/// What a draft that exists holds.
proof fn lemma_draft(
    effective: CaveatsView,
    data_paths: Seq<Seq<char>>,
    search_dirs: Seq<Seq<char>>,
    norm: NormalizationPolicy,
    host: HostFacts,
) -> (d: Draft)
    requires
        draft_of(effective, data_paths, search_dirs, norm, host) is Ok,
    ensures
        draft_of(effective, data_paths, search_dirs, norm, host) == Ok::<Draft, Seq<char>>(d),
        forall|x: Seq<char>| #[trigger]
            in_draft(d, x) ==> accounted(x, effective, data_paths, search_dirs, norm, host),
        forall|i: int|
            0 <= i < scope_paths(effective.exec).len() ==> (program_location(
                #[trigger] scope_paths(effective.exec)[i],
                search_dirs,
                host,
            ) matches Some(bin) && (holds_path(d.files, bin) || holds_path(d.read, bin) || to_write(
                d,
                bin,
            ))),
        forall|i: int|
            0 <= i < scope_paths(effective.fs_write).len() && is_present(
                host.paths@,
                #[trigger] scope_paths(effective.fs_write)[i],
            ) ==> to_write(d, scope_paths(effective.fs_write)[i]) && !holds_path(
                d.files,
                scope_paths(effective.fs_write)[i],
            ) && !holds_path(d.read, scope_paths(effective.fs_write)[i]),
        forall|x: Seq<char>| #[trigger] d.read.contains(x) ==> called_directory(x, host),
        forall|x: Seq<char>| #[trigger]
            d.write.contains(x) ==> scope_paths(effective.fs_write).contains(x) && is_directory(
                host.paths@,
                x,
            ),
        forall|x: Seq<char>| #[trigger]
            d.written.contains(x) ==> scope_paths(effective.fs_write).contains(x) && !is_directory(
                host.paths@,
                x,
            ),
{
    let programs = scope_paths(effective.exec);
    let found = program_files(programs, search_dirs, norm.ldd_closure, host)->Ok_0;
    lemma_program_files(programs, search_dirs, norm.ldd_closure, host);
    let files = if norm.nss_closure_fallback {
        with_nss(found, found, host.listings@)
    } else {
        found
    };
    lemma_nss(found, found, host.listings@);
    let read = if norm.python_closure_fallback && wants_python(programs) {
        with_python(Seq::empty(), host.listings@)
    } else {
        Seq::empty()
    };
    lemma_python(host.listings@);
    let start = Draft { files, read, write: Seq::empty(), written: Seq::empty() };
    let data = with_reads(start, data_paths, host.paths@);
    lemma_reads(start, data_paths, host.paths@);
    let granted = with_reads(data, scope_paths(effective.fs_read), host.paths@);
    lemma_reads(data, scope_paths(effective.fs_read), host.paths@);
    let full = with_writes(granted, scope_paths(effective.fs_write), host.paths@);
    lemma_writes(granted, scope_paths(effective.fs_write), host.paths@);
    let d = settled(full);
    lemma_without(full.files, full.read);
    assert forall|x: Seq<char>| #[trigger] in_draft(d, x) implies accounted(
        x,
        effective,
        data_paths,
        search_dirs,
        norm,
        host,
    ) by {
        if !scope_paths(effective.fs_write).contains(x) {
            assert(in_draft(granted, x));
            if !scope_paths(effective.fs_read).contains(x) {
                assert(in_draft(data, x));
                if !data_paths.contains(x) {
                    assert(in_draft(start, x));
                    if files.contains(x) && !found.contains(x) {
                        assert(with_nss(found, found, host.listings@).contains(x));
                    }
                }
            }
        }
    }
    assert forall|i: int| 0 <= i < programs.len() implies (program_location(
        #[trigger] programs[i],
        search_dirs,
        host,
    ) matches Some(bin) && (holds_path(d.files, bin) || holds_path(d.read, bin) || to_write(
        d,
        bin,
    ))) by {
        let bin = program_location(programs[i], search_dirs, host)->0;
        let y = choose|y: Seq<char>| #[trigger] found.contains(y) && same_path(y, bin);
        assert(files.contains(y));
        assert(data.files.contains(y));
        assert(granted.files.contains(y));
        if full.files.contains(y) {
            if !d.files.contains(y) {
                let z = choose|z: Seq<char>| #[trigger] full.read.contains(z) && same_path(z, y);
                assert(holds_path(d.read, bin));
            }
        } else if holds_path(full.write, y) {
            let z = choose|z: Seq<char>| #[trigger] full.write.contains(z) && same_path(z, y);
            assert(holds_path(d.write, bin));
        } else {
            let z = choose|z: Seq<char>| #[trigger] full.written.contains(z) && same_path(z, y);
            assert(holds_path(d.written, bin));
        }
    }
    assert forall|i: int|
        0 <= i < scope_paths(effective.fs_write).len() && is_present(
            host.paths@,
            #[trigger] scope_paths(effective.fs_write)[i],
        ) implies to_write(d, scope_paths(effective.fs_write)[i]) && !holds_path(
        d.files,
        scope_paths(effective.fs_write)[i],
    ) && !holds_path(d.read, scope_paths(effective.fs_write)[i]) by {
        let p = scope_paths(effective.fs_write)[i];
        if holds_path(d.files, p) {
            let z = choose|z: Seq<char>| #[trigger] d.files.contains(z) && same_path(z, p);
            assert(full.files.contains(z));
            assert(holds_path(full.files, p));
        }
    }
    d
}

/// A plan holds nothing but the granted programs and what they need, the
/// runtime data and the granted roots: no other program exists in the tree.
pub proof fn law_a_plan_holds_nothing_else(
    effective: CaveatsView,
    data_paths: Seq<Seq<char>>,
    search_dirs: Seq<Seq<char>>,
    norm: NormalizationPolicy,
    host: HostFacts,
    i: int,
)
    requires
        draft_of(effective, data_paths, search_dirs, norm, host) is Ok,
        0 <= i < drafted(
            draft_of(effective, data_paths, search_dirs, norm, host)->Ok_0,
        ).len(),
    ensures
        accounted(
            drafted(draft_of(effective, data_paths, search_dirs, norm, host)->Ok_0)[i].src,
            effective,
            data_paths,
            search_dirs,
            norm,
            host,
        ),
{
    let d = lemma_draft(effective, data_paths, search_dirs, norm, host);
    let e = drafted(d)[i];
    assert(drafted(d).contains(e));
    lemma_drafted(d, e);
    assert(in_draft(d, e.src));
}

/// Every granted program is in the plan: as a file that cannot be written,
/// unless it is itself granted for writing, or the host calls that path a
/// directory too.
pub proof fn law_a_plan_holds_the_granted_programs(
    effective: CaveatsView,
    data_paths: Seq<Seq<char>>,
    search_dirs: Seq<Seq<char>>,
    norm: NormalizationPolicy,
    host: HostFacts,
    i: int,
)
    requires
        draft_of(effective, data_paths, search_dirs, norm, host) is Ok,
        0 <= i < scope_paths(effective.exec).len(),
    ensures
        program_location(scope_paths(effective.exec)[i], search_dirs, host) is Some,
        exists|e: EntryView| #[trigger]
            drafted(draft_of(effective, data_paths, search_dirs, norm, host)->Ok_0).contains(e)
                && same_path(
                e.src,
                program_location(scope_paths(effective.exec)[i], search_dirs, host)->0,
            ) && (e.writable ==> scope_paths(effective.fs_write).contains(e.src)) && (e.is_dir
                ==> called_directory(e.src, host)),
{
    let d = lemma_draft(effective, data_paths, search_dirs, norm, host);
    let programs = scope_paths(effective.exec);
    let bin = program_location(programs[i], search_dirs, host)->0;
    let (list, writable, is_dir) = if holds_path(d.files, bin) {
        (d.files, false, false)
    } else if holds_path(d.read, bin) {
        (d.read, false, true)
    } else if holds_path(d.write, bin) {
        (d.write, true, true)
    } else {
        (d.written, true, false)
    };
    let y = choose|y: Seq<char>| #[trigger] list.contains(y) && same_path(y, bin);
    let e = EntryView { src: y, writable, is_dir };
    lemma_drafted(d, e);
    assert(drafted(
        draft_of(effective, data_paths, search_dirs, norm, host)->Ok_0,
    ).contains(e));
}

/// Every path that is granted for writing and exists is in the plan as one to
/// write, a directory as a directory and a file as a file, and never as one to
/// read only.
pub proof fn law_a_root_to_write_is_writable(
    effective: CaveatsView,
    data_paths: Seq<Seq<char>>,
    search_dirs: Seq<Seq<char>>,
    norm: NormalizationPolicy,
    host: HostFacts,
    i: int,
)
    requires
        draft_of(effective, data_paths, search_dirs, norm, host) is Ok,
        0 <= i < scope_paths(effective.fs_write).len(),
        is_present(host.paths@, scope_paths(effective.fs_write)[i]),
    ensures
        exists|e: EntryView| #[trigger]
            drafted(draft_of(effective, data_paths, search_dirs, norm, host)->Ok_0).contains(e)
                && e.writable && same_path(e.src, scope_paths(effective.fs_write)[i])
                && scope_paths(effective.fs_write).contains(e.src) && e.is_dir == is_directory(
                host.paths@,
                e.src,
            ),
        forall|e: EntryView| #[trigger]
            drafted(draft_of(effective, data_paths, search_dirs, norm, host)->Ok_0).contains(e)
                && same_path(e.src, scope_paths(effective.fs_write)[i]) ==> e.writable,
{
    let d = lemma_draft(effective, data_paths, search_dirs, norm, host);
    let path = scope_paths(effective.fs_write)[i];
    let is_dir = holds_path(d.write, path);
    let list = if is_dir {
        d.write
    } else {
        d.written
    };
    let y = choose|y: Seq<char>| #[trigger] list.contains(y) && same_path(y, path);
    let e = EntryView { src: y, writable: true, is_dir };
    lemma_drafted(d, e);
    assert(drafted(
        draft_of(effective, data_paths, search_dirs, norm, host)->Ok_0,
    ).contains(e));
    assert forall|e: EntryView| #[trigger] drafted(d).contains(e) && same_path(
        e.src,
        path,
    ) implies e.writable by {
        lemma_drafted(d, e);
        if d.read.contains(e.src) {
            assert(holds_path(d.read, path));
        }
        if d.files.contains(e.src) {
            assert(holds_path(d.files, path));
        }
    }
}

/// The entries of a plan stand in path order.
pub proof fn law_a_plan_is_in_path_order(list: Seq<EntryView>, i: int, j: int)
    requires
        0 <= i < j < sorted(list).len(),
    ensures
        !path_below(sorted(list)[j].src, sorted(list)[i].src),
{
    lemma_in_path_order(list);
}

spec fn in_path_order(list: Seq<EntryView>) -> bool {
    forall|i: int, j: int|
        0 <= i < j < list.len() ==> !path_below((#[trigger] list[j]).src, (#[trigger] list[i]).src)
}

proof fn lemma_in_path_order(list: Seq<EntryView>)
    ensures
        in_path_order(sorted(list)),
    decreases list.len(),
{
    if list.len() > 0 {
        lemma_in_path_order(list.drop_last());
        lemma_placed_in_order(sorted(list.drop_last()), list.last());
    }
}

proof fn lemma_placed_in_order(list: Seq<EntryView>, entry: EntryView)
    requires
        in_path_order(list),
    ensures
        in_path_order(placed(list, entry)),
    decreases list.len(),
{
    if list.len() > 0 {
        let r = placed(list, entry);
        let rest = list.subrange(1, list.len() as int);
        let before = path_below(entry.src, list[0].src);
        assert forall|i: int, j: int| 0 <= i < j < rest.len() implies !path_below(
            (#[trigger] rest[j]).src,
            (#[trigger] rest[i]).src,
        ) by {
            assert(rest[j] == list[j + 1] && rest[i] == list[i + 1]);
        }
        if before {
            assert forall|i: int, j: int| 0 <= i < j < r.len() implies !path_below(
                (#[trigger] r[j]).src,
                (#[trigger] r[i]).src,
            ) by {
                assert(r[j] == list[j - 1]);
                if i == 0 {
                    law_path_order_is_total(list[j - 1].src, entry.src, list[0].src);
                    law_path_order_is_total(list[0].src, list[0].src, list[0].src);
                    if j > 1 {
                        assert(!path_below(list[j - 1].src, list[0].src));
                    }
                } else {
                    assert(r[i] == list[i - 1]);
                }
            }
        } else {
            let tail = placed(rest, entry);
            lemma_placed_in_order(rest, entry);
            lemma_placed(rest, entry);
            assert(r =~= seq![list[0]] + tail);
            assert forall|i: int, j: int| 0 <= i < j < r.len() implies !path_below(
                (#[trigger] r[j]).src,
                (#[trigger] r[i]).src,
            ) by {
                assert(r[j] == tail[j - 1]);
                if i == 0 {
                    assert(tail.contains(tail[j - 1]));
                    if tail[j - 1] != entry {
                        let m = choose|m: int| 0 <= m < rest.len() && rest[m] == tail[j - 1];
                        assert(list[m + 1] == tail[j - 1]);
                    }
                } else {
                    assert(r[i] == tail[i - 1]);
                }
            }
        }
    }
}

} // verus!
