//! No path is exposed twice: the entries of a plan name different paths.

use vstd::prelude::*;

use crate::caveats::CaveatsView;
use crate::config::NormalizationPolicy;
use crate::paths::{components, joined};
use crate::rootfs::host::{
    item_file, listing_of, program_location, trace_of, with_items, DirEntry, HostFacts, Listing,
    PathFact, TraceView,
};
use crate::rootfs::laws::{lemma_placed, lemma_sorted};
use crate::rootfs::order::{
    holds_path, inserted, law_path_order_is_total, lemma_inserted, lemma_removed, lemma_without,
    path_below, removed, same_path, without,
};
use crate::rootfs::{
    draft_of, drafted, entries_of, placed, program_files, scope_paths, settled, sorted,
    wants_python, with_modules, with_nss, with_python, with_python_base, with_python_entries,
    with_reads, with_writes, Draft, EntryView,
};

verus! {

/// The paths stand in path order, and none is repeated.
pub open spec fn strictly_ordered(list: Seq<Seq<char>>) -> bool {
    forall|i: int, j: int|
        0 <= i < j < list.len() ==> path_below(#[trigger] list[i], #[trigger] list[j])
}

proof fn lemma_insert_keeps_order(list: Seq<Seq<char>>, path: Seq<char>)
    requires
        strictly_ordered(list),
    ensures
        strictly_ordered(inserted(list, path)),
    decreases list.len(),
{
    if list.len() > 0 && !same_path(list[0], path) {
        let r = inserted(list, path);
        law_path_order_is_total(path, list[0], path);
        if path_below(path, list[0]) {
            assert forall|i: int, j: int| 0 <= i < j < r.len() implies path_below(
                #[trigger] r[i],
                #[trigger] r[j],
            ) by {
                assert(r[j] == list[j - 1]);
                if i == 0 {
                    law_path_order_is_total(path, list[0], list[j - 1]);
                } else {
                    assert(r[i] == list[i - 1]);
                }
            }
        } else {
            let rest = list.subrange(1, list.len() as int);
            let tail = inserted(rest, path);
            assert forall|i: int, j: int| 0 <= i < j < rest.len() implies path_below(
                #[trigger] rest[i],
                #[trigger] rest[j],
            ) by {
                assert(rest[i] == list[i + 1] && rest[j] == list[j + 1]);
            }
            lemma_insert_keeps_order(rest, path);
            lemma_inserted(rest, path);
            assert forall|i: int, j: int| 0 <= i < j < r.len() implies path_below(
                #[trigger] r[i],
                #[trigger] r[j],
            ) by {
                assert(r[j] == tail[j - 1]);
                if i == 0 {
                    assert(tail.contains(tail[j - 1]));
                    if tail[j - 1] != path {
                        let m = choose|m: int| 0 <= m < rest.len() && rest[m] == tail[j - 1];
                        assert(list[m + 1] == r[j]);
                    }
                } else {
                    assert(r[i] == tail[i - 1]);
                }
            }
        }
    }
}

proof fn lemma_remove_keeps_order(list: Seq<Seq<char>>, path: Seq<char>)
    requires
        strictly_ordered(list),
    ensures
        strictly_ordered(removed(list, path)),
    decreases list.len(),
{
    if list.len() > 0 {
        let shorter = list.drop_last();
        let rest = removed(shorter, path);
        let r = removed(list, path);
        assert forall|i: int, j: int| 0 <= i < j < shorter.len() implies path_below(
            #[trigger] shorter[i],
            #[trigger] shorter[j],
        ) by {
            assert(shorter[i] == list[i] && shorter[j] == list[j]);
        }
        lemma_remove_keeps_order(shorter, path);
        lemma_removed(shorter, path);
        assert forall|i: int, j: int| 0 <= i < j < r.len() implies path_below(
            #[trigger] r[i],
            #[trigger] r[j],
        ) by {
            assert(r[i] == rest[i]);
            if j < rest.len() {
                assert(r[j] == rest[j]);
            } else {
                assert(rest.contains(rest[i]));
                let m = choose|m: int| 0 <= m < shorter.len() && shorter[m] == rest[i];
                assert(list[m] == r[i] && list[list.len() - 1] == r[j]);
            }
        }
    }
}

proof fn lemma_without_keeps_order(list: Seq<Seq<char>>, dropped: Seq<Seq<char>>)
    requires
        strictly_ordered(list),
    ensures
        strictly_ordered(without(list, dropped)),
    decreases dropped.len(),
{
    if dropped.len() > 0 {
        lemma_without_keeps_order(list, dropped.drop_last());
        lemma_remove_keeps_order(without(list, dropped.drop_last()), dropped.last());
    }
}

proof fn lemma_items(files: Seq<Seq<char>>, items: Seq<TraceView>, facts: Seq<PathFact>)
    requires
        strictly_ordered(files),
    ensures
        strictly_ordered(with_items(files, items, facts)),
    decreases items.len(),
{
    if items.len() > 0 {
        lemma_items(files, items.drop_last(), facts);
        if let Some(file) = item_file(items.last(), facts) {
            lemma_insert_keeps_order(with_items(files, items.drop_last(), facts), file);
        }
    }
}

proof fn lemma_programs(
    programs: Seq<Seq<char>>,
    fallback: Seq<Seq<char>>,
    closures: bool,
    host: HostFacts,
)
    requires
        program_files(programs, fallback, closures, host) is Ok,
    ensures
        strictly_ordered(program_files(programs, fallback, closures, host)->Ok_0),
    decreases programs.len(),
{
    if programs.len() > 0 {
        let before = program_files(programs.drop_last(), fallback, closures, host)->Ok_0;
        let bin = program_location(programs.last(), fallback, host)->0;
        lemma_programs(programs.drop_last(), fallback, closures, host);
        if closures {
            let items = trace_of(host.traces@, bin);
            lemma_items(before, items, host.paths@);
            lemma_insert_keeps_order(with_items(before, items, host.paths@), bin);
        } else {
            lemma_insert_keeps_order(before, bin);
        }
    }
}

proof fn lemma_modules(files: Seq<Seq<char>>, entries: Seq<DirEntry>)
    requires
        strictly_ordered(files),
    ensures
        strictly_ordered(with_modules(files, entries)),
    decreases entries.len(),
{
    if entries.len() > 0 {
        lemma_modules(files, entries.drop_last());
        if let Some(c) = entries.last().canonical {
            lemma_insert_keeps_order(with_modules(files, entries.drop_last()), c@);
        }
    }
}

proof fn lemma_nss(files: Seq<Seq<char>>, seen: Seq<Seq<char>>, listings: Seq<Listing>)
    requires
        strictly_ordered(files),
    ensures
        strictly_ordered(with_nss(files, seen, listings)),
    decreases seen.len(),
{
    if seen.len() > 0 {
        lemma_nss(files, seen.drop_last(), listings);
        if let Some(l) = listing_of(listings, components(seen.last()).drop_last()) {
            lemma_modules(with_nss(files, seen.drop_last(), listings), l.entries@);
        }
    }
}

proof fn lemma_python_entries(dirs: Seq<Seq<char>>, base: Seq<char>, entries: Seq<DirEntry>)
    requires
        strictly_ordered(dirs),
    ensures
        strictly_ordered(with_python_entries(dirs, base, entries)),
    decreases entries.len(),
{
    if entries.len() > 0 {
        lemma_python_entries(dirs, base, entries.drop_last());
        lemma_insert_keeps_order(
            with_python_entries(dirs, base, entries.drop_last()),
            joined(base, entries.last().name@),
        );
    }
}

proof fn lemma_python_base(dirs: Seq<Seq<char>>, base: Seq<char>, listings: Seq<Listing>)
    requires
        strictly_ordered(dirs),
    ensures
        strictly_ordered(with_python_base(dirs, base, listings)),
{
    if let Some(l) = listing_of(listings, components(base)) {
        lemma_python_entries(dirs, base, l.entries@);
    }
}

proof fn lemma_reads(d: Draft, paths: Seq<Seq<char>>, facts: Seq<PathFact>)
    requires
        strictly_ordered(d.files),
        strictly_ordered(d.read),
    ensures
        strictly_ordered(with_reads(d, paths, facts).files),
        strictly_ordered(with_reads(d, paths, facts).read),
        with_reads(d, paths, facts).write == d.write,
        with_reads(d, paths, facts).written == d.written,
    decreases paths.len(),
{
    if paths.len() > 0 {
        let rest = with_reads(d, paths.drop_last(), facts);
        lemma_reads(d, paths.drop_last(), facts);
        lemma_insert_keeps_order(rest.read, paths.last());
        lemma_insert_keeps_order(rest.files, paths.last());
    }
}

/// No path of the one list is one of the other.
pub open spec fn disjoint(a: Seq<Seq<char>>, b: Seq<Seq<char>>) -> bool {
    forall|x: Seq<char>| #[trigger] a.contains(x) ==> !holds_path(b, x)
}

/// What two lists without a path in common have in common once a path was put
/// into the one and taken out of the other: nothing.
proof fn lemma_moved(a: Seq<Seq<char>>, b: Seq<Seq<char>>, path: Seq<char>)
    requires
        disjoint(a, b),
    ensures
        disjoint(inserted(a, path), removed(b, path)),
        disjoint(removed(a, path), inserted(b, path)),
        disjoint(removed(a, path), removed(b, path)),
{
    lemma_inserted(a, path);
    lemma_inserted(b, path);
    lemma_removed(a, path);
    lemma_removed(b, path);
    assert forall|x: Seq<char>| #[trigger] inserted(a, path).contains(x) implies !holds_path(
        removed(b, path),
        x,
    ) by {
        if holds_path(removed(b, path), x) {
            let z = choose|z: Seq<char>| #[trigger]
                removed(b, path).contains(z) && same_path(z, x);
            assert(b.contains(z));
            assert(holds_path(b, x));
        }
    }
    assert forall|x: Seq<char>| #[trigger] removed(a, path).contains(x) implies !holds_path(
        inserted(b, path),
        x,
    ) && !holds_path(removed(b, path), x) by {
        assert(a.contains(x));
        if holds_path(inserted(b, path), x) {
            let z = choose|z: Seq<char>| #[trigger]
                inserted(b, path).contains(z) && same_path(z, x);
            if b.contains(z) {
                assert(holds_path(b, x));
            }
        }
        if holds_path(removed(b, path), x) {
            let z = choose|z: Seq<char>| #[trigger]
                removed(b, path).contains(z) && same_path(z, x);
            assert(b.contains(z));
            assert(holds_path(b, x));
        }
    }
}

/// The draft after the paths to write: in order, and no path to write is one to
/// read, or of both sorts.
proof fn lemma_writes_apart(d: Draft, paths: Seq<Seq<char>>, facts: Seq<PathFact>)
    requires
        strictly_ordered(d.files),
        strictly_ordered(d.read),
        d.write.len() == 0,
        d.written.len() == 0,
    ensures
        strictly_ordered(with_writes(d, paths, facts).files),
        strictly_ordered(with_writes(d, paths, facts).read),
        strictly_ordered(with_writes(d, paths, facts).write),
        strictly_ordered(with_writes(d, paths, facts).written),
        disjoint(with_writes(d, paths, facts).write, with_writes(d, paths, facts).files),
        disjoint(with_writes(d, paths, facts).write, with_writes(d, paths, facts).read),
        disjoint(with_writes(d, paths, facts).written, with_writes(d, paths, facts).files),
        disjoint(with_writes(d, paths, facts).written, with_writes(d, paths, facts).read),
        disjoint(with_writes(d, paths, facts).written, with_writes(d, paths, facts).write),
    decreases paths.len(),
{
    if paths.len() > 0 {
        let rest = with_writes(d, paths.drop_last(), facts);
        let path = paths.last();
        lemma_writes_apart(d, paths.drop_last(), facts);
        lemma_insert_keeps_order(rest.write, path);
        lemma_insert_keeps_order(rest.written, path);
        lemma_remove_keeps_order(rest.files, path);
        lemma_remove_keeps_order(rest.read, path);
        lemma_remove_keeps_order(rest.write, path);
        lemma_remove_keeps_order(rest.written, path);
        lemma_moved(rest.write, rest.files, path);
        lemma_moved(rest.write, rest.read, path);
        lemma_moved(rest.written, rest.files, path);
        lemma_moved(rest.written, rest.read, path);
        lemma_moved(rest.written, rest.write, path);
    }
}

/// The entries name different paths.
pub open spec fn apart(a: EntryView, b: EntryView) -> bool {
    !same_path(a.src, b.src)
}

/// Any two entries are apart.
pub open spec fn all_apart(list: Seq<EntryView>) -> bool {
    forall|i: int, j: int|
        0 <= i < j < list.len() ==> apart(#[trigger] list[i], #[trigger] list[j])
}

proof fn lemma_placed_apart(list: Seq<EntryView>, entry: EntryView)
    requires
        all_apart(list),
        forall|i: int| 0 <= i < list.len() ==> apart(#[trigger] list[i], entry),
    ensures
        all_apart(placed(list, entry)),
    decreases list.len(),
{
    if list.len() > 0 {
        let r = placed(list, entry);
        if path_below(entry.src, list[0].src) {
            assert forall|i: int, j: int| 0 <= i < j < r.len() implies apart(
                #[trigger] r[i],
                #[trigger] r[j],
            ) by {
                assert(r[j] == list[j - 1]);
                if i > 0 {
                    assert(r[i] == list[i - 1]);
                }
            }
        } else {
            let rest = list.subrange(1, list.len() as int);
            let tail = placed(rest, entry);
            assert forall|i: int, j: int| 0 <= i < j < rest.len() implies apart(
                #[trigger] rest[i],
                #[trigger] rest[j],
            ) by {
                assert(rest[i] == list[i + 1] && rest[j] == list[j + 1]);
            }
            assert forall|i: int| 0 <= i < rest.len() implies apart(#[trigger] rest[i], entry) by {
                assert(rest[i] == list[i + 1]);
            }
            lemma_placed_apart(rest, entry);
            lemma_placed(rest, entry);
            assert forall|i: int, j: int| 0 <= i < j < r.len() implies apart(
                #[trigger] r[i],
                #[trigger] r[j],
            ) by {
                assert(r[j] == tail[j - 1]);
                if i == 0 {
                    assert(tail.contains(tail[j - 1]));
                    if tail[j - 1] != entry {
                        let m = choose|m: int| 0 <= m < rest.len() && rest[m] == tail[j - 1];
                        assert(list[m + 1] == r[j]);
                    }
                } else {
                    assert(r[i] == tail[i - 1]);
                }
            }
        }
    }
}

proof fn lemma_sorted_apart(list: Seq<EntryView>)
    requires
        all_apart(list),
    ensures
        all_apart(sorted(list)),
    decreases list.len(),
{
    if list.len() > 0 {
        let shorter = list.drop_last();
        let before = sorted(shorter);
        assert forall|i: int, j: int| 0 <= i < j < shorter.len() implies apart(
            #[trigger] shorter[i],
            #[trigger] shorter[j],
        ) by {
            assert(shorter[i] == list[i] && shorter[j] == list[j]);
        }
        lemma_sorted_apart(shorter);
        lemma_sorted(shorter);
        assert forall|i: int| 0 <= i < before.len() implies apart(
            #[trigger] before[i],
            list.last(),
        ) by {
            assert(before.contains(before[i]));
            let m = choose|m: int| 0 <= m < shorter.len() && shorter[m] == before[i];
            assert(list[m] == before[i] && list[list.len() - 1] == list.last());
        }
        lemma_placed_apart(before, list.last());
    }
}

/// Entries of one more sort, of paths that no entry so far names.
proof fn lemma_more_apart(
    all: Seq<EntryView>,
    paths: Seq<Seq<char>>,
    writable: bool,
    is_dir: bool,
)
    requires
        all_apart(all),
        strictly_ordered(paths),
        forall|i: int| 0 <= i < all.len() ==> !holds_path(paths, (#[trigger] all[i]).src),
    ensures
        all_apart(all + entries_of(paths, writable, is_dir)),
{
    let r = all + entries_of(paths, writable, is_dir);
    assert forall|i: int, j: int| 0 <= i < j < r.len() implies apart(
        #[trigger] r[i],
        #[trigger] r[j],
    ) by {
        if j < all.len() {
            assert(r[i] == all[i] && r[j] == all[j]);
        } else {
            let y = paths[j - all.len()];
            assert(r[j].src == y);
            if i < all.len() {
                assert(r[i] == all[i]);
                assert(paths.contains(y));
                if same_path(all[i].src, y) {
                    assert(holds_path(paths, all[i].src));
                }
            } else {
                let x = paths[i - all.len()];
                assert(r[i].src == x);
                law_path_order_is_total(x, y, x);
            }
        }
    }
}

proof fn lemma_drafted_apart(d: Draft)
    requires
        strictly_ordered(d.files),
        strictly_ordered(d.read),
        strictly_ordered(d.write),
        strictly_ordered(d.written),
        disjoint(d.files, d.read),
        disjoint(d.write, d.files),
        disjoint(d.write, d.read),
        disjoint(d.written, d.files),
        disjoint(d.written, d.read),
        disjoint(d.written, d.write),
    ensures
        all_apart(drafted(d)),
{
    let none = Seq::<EntryView>::empty();
    let f = entries_of(d.files, false, false);
    let r = entries_of(d.read, false, true);
    let w = entries_of(d.write, true, true);
    let v = entries_of(d.written, true, false);
    lemma_more_apart(none, d.files, false, false);
    assert(none + f =~= f);
    assert forall|i: int| 0 <= i < f.len() implies !holds_path(d.read, (#[trigger] f[i]).src) by {
        assert(f[i].src == d.files[i]);
        assert(d.files.contains(d.files[i]));
    }
    lemma_more_apart(f, d.read, false, true);
    let fr = f + r;
    assert forall|i: int| 0 <= i < fr.len() implies !holds_path(
        d.write,
        (#[trigger] fr[i]).src,
    ) by {
        let x = fr[i].src;
        if i < f.len() {
            assert(x == d.files[i]);
            assert(d.files.contains(x));
        } else {
            assert(x == d.read[i - f.len()]);
            assert(d.read.contains(x));
        }
        lemma_names_none(d.write, d.files, d.read, x);
    }
    lemma_more_apart(fr, d.write, true, true);
    let frw = fr + w;
    assert forall|i: int| 0 <= i < frw.len() implies !holds_path(
        d.written,
        (#[trigger] frw[i]).src,
    ) by {
        let x = frw[i].src;
        if i < fr.len() {
            assert(frw[i] == fr[i]);
            if i < f.len() {
                assert(x == d.files[i]);
                assert(d.files.contains(x));
            } else {
                assert(x == d.read[i - f.len()]);
                assert(d.read.contains(x));
            }
            lemma_names_none(d.written, d.files, d.read, x);
        } else {
            assert(x == d.write[i - fr.len()]);
            assert(d.write.contains(x));
            lemma_names_none(d.written, d.write, d.write, x);
        }
    }
    lemma_more_apart(frw, d.written, true, false);
    lemma_sorted_apart(frw + v);
}

/// A list with nothing in common with another has nothing in common with a part
/// of it.
proof fn lemma_fewer(list: Seq<Seq<char>>, a: Seq<Seq<char>>, part: Seq<Seq<char>>)
    requires
        disjoint(list, a),
        forall|x: Seq<char>| #[trigger] part.contains(x) ==> a.contains(x),
    ensures
        disjoint(list, part),
{
    assert forall|x: Seq<char>| #[trigger] list.contains(x) implies !holds_path(part, x) by {
        if holds_path(part, x) {
            let z = choose|z: Seq<char>| #[trigger] part.contains(z) && same_path(z, x);
            assert(a.contains(z));
            assert(holds_path(a, x));
        }
    }
}

/// A list with nothing in common with two others names no path of theirs.
proof fn lemma_names_none(
    list: Seq<Seq<char>>,
    a: Seq<Seq<char>>,
    b: Seq<Seq<char>>,
    x: Seq<char>,
)
    requires
        disjoint(list, a),
        disjoint(list, b),
        a.contains(x) || b.contains(x),
    ensures
        !holds_path(list, x),
{
    if holds_path(list, x) {
        let y = choose|y: Seq<char>| #[trigger] list.contains(y) && same_path(y, x);
        if a.contains(x) {
            assert(holds_path(a, y));
        } else {
            assert(holds_path(b, y));
        }
    }
}

/// No two entries of a plan are the same path.
pub proof fn law_a_plan_repeats_no_path(
    effective: CaveatsView,
    data_paths: Seq<Seq<char>>,
    search_dirs: Seq<Seq<char>>,
    norm: NormalizationPolicy,
    host: HostFacts,
    i: int,
    j: int,
)
    requires
        draft_of(effective, data_paths, search_dirs, norm, host) is Ok,
        0 <= i < j < drafted(
            draft_of(effective, data_paths, search_dirs, norm, host)->Ok_0,
        ).len(),
    ensures
        !same_path(
            drafted(draft_of(effective, data_paths, search_dirs, norm, host)->Ok_0)[i].src,
            drafted(draft_of(effective, data_paths, search_dirs, norm, host)->Ok_0)[j].src,
        ),
{
    let programs = scope_paths(effective.exec);
    let found = program_files(programs, search_dirs, norm.ldd_closure, host)->Ok_0;
    lemma_programs(programs, search_dirs, norm.ldd_closure, host);
    lemma_nss(found, found, host.listings@);
    let files = if norm.nss_closure_fallback {
        with_nss(found, found, host.listings@)
    } else {
        found
    };
    let none = Seq::<Seq<char>>::empty();
    let one = with_python_base(none, "/usr/lib"@, host.listings@);
    let two = with_python_base(one, "/usr/local/lib"@, host.listings@);
    lemma_python_base(none, "/usr/lib"@, host.listings@);
    lemma_python_base(one, "/usr/local/lib"@, host.listings@);
    lemma_python_base(two, "/usr/lib64"@, host.listings@);
    let read = if norm.python_closure_fallback && wants_python(programs) {
        with_python(none, host.listings@)
    } else {
        none
    };
    let start = Draft { files, read, write: none, written: none };
    lemma_reads(start, data_paths, host.paths@);
    let data = with_reads(start, data_paths, host.paths@);
    lemma_reads(data, scope_paths(effective.fs_read), host.paths@);
    let granted = with_reads(data, scope_paths(effective.fs_read), host.paths@);
    lemma_writes_apart(granted, scope_paths(effective.fs_write), host.paths@);
    let full = with_writes(granted, scope_paths(effective.fs_write), host.paths@);
    let d = settled(full);
    lemma_without(full.files, full.read);
    lemma_without_keeps_order(full.files, full.read);
    lemma_fewer(full.write, full.files, d.files);
    lemma_fewer(full.written, full.files, d.files);
    lemma_drafted_apart(d);
    assert(apart(drafted(d)[i], drafted(d)[j]));
}

} // verus!
