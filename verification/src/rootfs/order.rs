//! Lists of paths in path order: by components, without repetitions.

use vstd::prelude::*;
use vstd::string::*;
use vstd::utf8::encode_utf8;

use crate::paths::{components, path_components};
use crate::sets::views;
use crate::text::{
    lemma_bytes_below_irreflexive, lemma_bytes_below_total, lemma_bytes_below_transitive,
    lemma_utf8_injective, str_below, str_equal, str_less,
};

verus! {

/// The rank of a component by its sort: the root, `.`, `..`, then names.
pub open spec fn rank(part: Seq<char>) -> int {
    if part == "/"@ {
        0
    } else if part == "."@ {
        1
    } else if part == ".."@ {
        2
    } else {
        3
    }
}

/// One component comes before the other: by rank, then by name.
pub open spec fn part_below(a: Seq<char>, b: Seq<char>) -> bool {
    rank(a) < rank(b) || (rank(a) == rank(b) && str_below(a, b))
}

/// One list of components comes before the other, from the left.
pub open spec fn parts_below(a: Seq<Seq<char>>, b: Seq<Seq<char>>) -> bool
    decreases a.len(),
{
    if b.len() == 0 {
        false
    } else if a.len() == 0 {
        true
    } else if a[0] == b[0] {
        parts_below(a.subrange(1, a.len() as int), b.subrange(1, b.len() as int))
    } else {
        part_below(a[0], b[0])
    }
}

/// One path comes before the other.
pub open spec fn path_below(a: Seq<char>, b: Seq<char>) -> bool {
    parts_below(components(a), components(b))
}

/// Both texts name the same path.
pub open spec fn same_path(a: Seq<char>, b: Seq<char>) -> bool {
    components(a) == components(b)
}

proof fn lemma_part_below(a: Seq<char>, b: Seq<char>, c: Seq<char>)
    ensures
        !part_below(a, a),
        part_below(a, b) && part_below(b, c) ==> part_below(a, c),
        a == b || part_below(a, b) || part_below(b, a),
{
    lemma_bytes_below_irreflexive(encode_utf8(a));
    if str_below(a, b) && str_below(b, c) {
        lemma_bytes_below_transitive(encode_utf8(a), encode_utf8(b), encode_utf8(c));
    }
    lemma_bytes_below_total(encode_utf8(a), encode_utf8(b));
    if encode_utf8(a) == encode_utf8(b) {
        lemma_utf8_injective(a, b);
    }
}

proof fn lemma_parts_below_transitive(a: Seq<Seq<char>>, b: Seq<Seq<char>>, c: Seq<Seq<char>>)
    ensures
        !parts_below(a, a),
        parts_below(a, b) && parts_below(b, c) ==> parts_below(a, c),
    decreases a.len(),
{
    if a.len() > 0 {
        let ra = a.subrange(1, a.len() as int);
        lemma_part_below(a[0], a[0], a[0]);
        if b.len() > 0 && c.len() > 0 {
            lemma_part_below(a[0], b[0], c[0]);
            lemma_part_below(b[0], c[0], b[0]);
            lemma_part_below(a[0], b[0], a[0]);
            lemma_parts_below_transitive(
                ra,
                b.subrange(1, b.len() as int),
                c.subrange(1, c.len() as int),
            );
        } else {
            lemma_parts_below_transitive(ra, ra, ra);
        }
    }
}

proof fn lemma_parts_below_total(a: Seq<Seq<char>>, b: Seq<Seq<char>>)
    ensures
        a == b || parts_below(a, b) || parts_below(b, a),
    decreases a.len(),
{
    if a.len() > 0 && b.len() > 0 {
        let ra = a.subrange(1, a.len() as int);
        let rb = b.subrange(1, b.len() as int);
        lemma_part_below(a[0], b[0], a[0]);
        lemma_parts_below_total(ra, rb);
        if a[0] == b[0] && ra == rb {
            assert(a =~= seq![a[0]] + ra);
            assert(b =~= seq![b[0]] + rb);
        }
    } else if a.len() == 0 && b.len() == 0 {
        assert(a =~= b);
    }
}

/// Path order is a strict order, total up to the spelling of a path.
pub proof fn law_path_order_is_total(a: Seq<char>, b: Seq<char>, c: Seq<char>)
    ensures
        !path_below(a, a),
        path_below(a, b) && path_below(b, c) ==> path_below(a, c),
        same_path(a, b) || path_below(a, b) || path_below(b, a),
        same_path(a, b) ==> !path_below(a, b),
{
    lemma_parts_below_transitive(components(a), components(b), components(c));
    lemma_parts_below_total(components(a), components(b));
}

fn part_rank(part: &str) -> (r: u8)
    ensures
        r == rank(part@),
{
    if str_equal(part, "/") {
        0
    } else if str_equal(part, ".") {
        1
    } else if str_equal(part, "..") {
        2
    } else {
        3
    }
}

/// How two paths stand to each other: the first is before (`Some(true)`) or
/// behind (`Some(false)`) the second, or they are the same path (`None`).
pub fn compare_paths(a: &str, b: &str) -> (r: Option<bool>)
    ensures
        match r {
            None => same_path(a@, b@),
            Some(first) => !same_path(a@, b@) && first == path_below(a@, b@),
        },
{
    let pa: Vec<String> = path_components(a);
    let pb: Vec<String> = path_components(b);
    let ghost va = views(pa@);
    let ghost vb = views(pb@);
    assert(va.len() == pa@.len() && vb.len() == pb@.len());
    assert(va.subrange(0, va.len() as int) =~= va);
    assert(vb.subrange(0, vb.len() as int) =~= vb);
    let mut i: usize = 0;
    while i < pa.len() && i < pb.len()
        invariant
            i <= pa.len(),
            i <= pb.len(),
            va == views(pa@),
            vb == views(pb@),
            va.len() == pa@.len(),
            vb.len() == pb@.len(),
            va == components(a@),
            vb == components(b@),
            forall|k: int| 0 <= k < i ==> va[k] == vb[k],
            parts_below(va, vb) == parts_below(
                va.subrange(i as int, va.len() as int),
                vb.subrange(i as int, vb.len() as int),
            ),
        decreases pa.len() - i,
    {
        proof {
            let ra = va.subrange(i as int, va.len() as int);
            let rb = vb.subrange(i as int, vb.len() as int);
            assert(ra[0] == pa@[i as int]@);
            assert(rb[0] == pb@[i as int]@);
            assert(ra.subrange(1, ra.len() as int) =~= va.subrange(i + 1, va.len() as int));
            assert(rb.subrange(1, rb.len() as int) =~= vb.subrange(i + 1, vb.len() as int));
        }
        if !str_equal(pa[i].as_str(), pb[i].as_str()) {
            assert(va[i as int] != vb[i as int]);
            let ra: u8 = part_rank(pa[i].as_str());
            let rb: u8 = part_rank(pb[i].as_str());
            return Some(ra < rb || (ra == rb && str_less(pa[i].as_str(), pb[i].as_str())));
        }
        i = i + 1;
    }
    if pa.len() == pb.len() {
        assert(va =~= vb);
        None
    } else {
        Some(pa.len() < pb.len())
    }
}

/// The list with one more path, in its place. A path that is already there
/// changes nothing.
pub open spec fn inserted(list: Seq<Seq<char>>, path: Seq<char>) -> Seq<Seq<char>>
    decreases list.len(),
{
    if list.len() == 0 {
        seq![path]
    } else if same_path(list[0], path) {
        list
    } else if path_below(path, list[0]) {
        seq![path] + list
    } else {
        seq![list[0]] + inserted(list.subrange(1, list.len() as int), path)
    }
}

/// The list without a path.
pub open spec fn removed(list: Seq<Seq<char>>, path: Seq<char>) -> Seq<Seq<char>>
    decreases list.len(),
{
    if list.len() == 0 {
        list
    } else {
        let rest = removed(list.drop_last(), path);
        if same_path(list.last(), path) {
            rest
        } else {
            rest.push(list.last())
        }
    }
}

/// The list holds a spelling of the path.
pub open spec fn holds_path(list: Seq<Seq<char>>, path: Seq<char>) -> bool {
    exists|x: Seq<char>| #[trigger] list.contains(x) && same_path(x, path)
}

/// The list without some paths.
pub open spec fn without(list: Seq<Seq<char>>, dropped: Seq<Seq<char>>) -> Seq<Seq<char>>
    decreases dropped.len(),
{
    if dropped.len() == 0 {
        list
    } else {
        removed(without(list, dropped.drop_last()), dropped.last())
    }
}

/// Add a path to a list in path order.
pub fn insert_path(list: &mut Vec<String>, path: String)
    ensures
        views(final(list)@) == inserted(views(old(list)@), path@),
{
    let ghost q = views(list@);
    let ghost before = list@;
    assert(q.len() == list@.len());
    assert(q.subrange(0, q.len() as int) =~= q);
    assert(q.take(0) + inserted(q, path@) =~= inserted(q, path@));
    let mut i: usize = 0;
    while i < list.len()
        invariant
            i <= list.len(),
            list@ == before,
            before == old(list)@,
            q == views(before),
            q.len() == before.len(),
            inserted(q, path@) == q.take(i as int) + inserted(
                q.subrange(i as int, q.len() as int),
                path@,
            ),
        decreases list.len() - i,
    {
        let ghost rest = q.subrange(i as int, q.len() as int);
        proof {
            assert(rest[0] == before[i as int]@);
            assert(rest.subrange(1, rest.len() as int) =~= q.subrange(i + 1, q.len() as int));
        }
        match compare_paths(path.as_str(), list[i].as_str()) {
            None => {
                assert(q.take(i as int) + rest =~= q);
                return;
            },
            Some(first) => {
                if first {
                    list.insert(i, path);
                    assert(views(list@) =~= q.take(i as int) + (seq![path@] + rest));
                    return;
                }
            },
        }
        proof {
            assert(q.take(i as int) + (seq![rest[0]] + inserted(
                rest.subrange(1, rest.len() as int),
                path@,
            )) =~= q.take(i + 1) + inserted(rest.subrange(1, rest.len() as int), path@));
        }
        i = i + 1;
    }
    proof {
        assert(q.subrange(i as int, q.len() as int) =~= Seq::empty());
        assert(q.take(i as int) =~= q);
    }
    list.push(path);
    assert(views(list@) =~= q + seq![path@]);
}

/// Take a path out of a list.
pub fn remove_path(list: &mut Vec<String>, path: &str)
    ensures
        views(final(list)@) == removed(views(old(list)@), path@),
{
    let mut kept: Vec<String> = Vec::new();
    let ghost q = views(list@);
    assert(q.len() == list@.len());
    assert(q.take(0) =~= Seq::empty());
    assert(views(kept@) =~= removed(q.take(0), path@));
    let mut i: usize = 0;
    while i < list.len()
        invariant
            i <= list.len(),
            q == views(list@),
            q.len() == list@.len(),
            views(kept@) == removed(q.take(i as int), path@),
        decreases list.len() - i,
    {
        proof {
            let longer = q.take(i + 1);
            assert(longer.drop_last() =~= q.take(i as int));
            assert(longer.last() == list@[i as int]@);
        }
        if compare_paths(list[i].as_str(), path).is_some() {
            let ghost before = kept@;
            kept.push(list[i].clone());
            assert(views(kept@) =~= views(before).push(list@[i as int]@));
        }
        i = i + 1;
    }
    assert(q.take(i as int) =~= q);
    *list = kept;
}

/// Take some paths out of a list.
pub fn remove_paths(list: &mut Vec<String>, dropped: &Vec<String>)
    ensures
        views(final(list)@) == without(views(old(list)@), views(dropped@)),
{
    let ghost start = views(list@);
    let ghost all = views(dropped@);
    let mut i: usize = 0;
    assert(all.len() == dropped@.len());
    assert(all.take(0) =~= Seq::empty());
    while i < dropped.len()
        invariant
            i <= dropped.len(),
            all == views(dropped@),
            all.len() == dropped@.len(),
            views(list@) == without(start, all.take(i as int)),
        decreases dropped.len() - i,
    {
        proof {
            let longer = all.take(i + 1);
            assert(longer.drop_last() =~= all.take(i as int));
            assert(longer.last() == dropped@[i as int]@);
        }
        remove_path(list, dropped[i].as_str());
        i = i + 1;
    }
    assert(all.take(i as int) =~= all);
}

/// What a list holds after an insertion: what it held, and a spelling of the
/// path.
pub proof fn lemma_inserted(list: Seq<Seq<char>>, path: Seq<char>)
    ensures
        forall|x: Seq<char>| #[trigger]
            inserted(list, path).contains(x) ==> x == path || list.contains(x),
        forall|x: Seq<char>| list.contains(x) ==> #[trigger] inserted(list, path).contains(x),
        exists|x: Seq<char>| #[trigger] inserted(list, path).contains(x) && same_path(x, path),
    decreases list.len(),
{
    let r = inserted(list, path);
    if list.len() == 0 {
        assert(r[0] == path);
        assert(r.contains(path));
    } else if same_path(list[0], path) {
        assert(r.contains(list[0]));
    } else if path_below(path, list[0]) {
        assert(r[0] == path);
        assert(r.contains(path));
        assert forall|x: Seq<char>| list.contains(x) implies #[trigger] r.contains(x) by {
            let k = choose|k: int| 0 <= k < list.len() && list[k] == x;
            assert(r[k + 1] == x);
        }
        assert forall|x: Seq<char>| #[trigger] r.contains(x) implies x == path || list.contains(
            x,
        ) by {
            let k = choose|k: int| 0 <= k < r.len() && r[k] == x;
            if k > 0 {
                assert(list[k - 1] == x);
            }
        }
    } else {
        let rest = list.subrange(1, list.len() as int);
        let inner = inserted(rest, path);
        lemma_inserted(rest, path);
        assert(r =~= seq![list[0]] + inner);
        assert forall|x: Seq<char>| #[trigger] r.contains(x) implies x == path || list.contains(
            x,
        ) by {
            let k = choose|k: int| 0 <= k < r.len() && r[k] == x;
            if k > 0 {
                assert(inner[k - 1] == x);
                assert(inner.contains(x));
                if x != path {
                    let m = choose|m: int| 0 <= m < rest.len() && rest[m] == x;
                    assert(list[m + 1] == x);
                }
            } else {
                assert(list[0] == x);
            }
        }
        assert forall|x: Seq<char>| list.contains(x) implies #[trigger] r.contains(x) by {
            let k = choose|k: int| 0 <= k < list.len() && list[k] == x;
            if k == 0 {
                assert(r[0] == x);
            } else {
                assert(rest[k - 1] == x);
                assert(rest.contains(x));
                assert(inner.contains(x));
                let m = choose|m: int| 0 <= m < inner.len() && inner[m] == x;
                assert(r[m + 1] == x);
            }
        }
        let x = choose|x: Seq<char>| #[trigger] inner.contains(x) && same_path(x, path);
        let m = choose|m: int| 0 <= m < inner.len() && inner[m] == x;
        assert(r[m + 1] == x);
        assert(r.contains(x));
    }
}

/// What a list holds after a removal: what it held, but no spelling of the
/// path.
pub proof fn lemma_removed(list: Seq<Seq<char>>, path: Seq<char>)
    ensures
        forall|x: Seq<char>| #[trigger]
            removed(list, path).contains(x) <==> list.contains(x) && !same_path(x, path),
    decreases list.len(),
{
    if list.len() > 0 {
        let shorter = list.drop_last();
        let rest = removed(shorter, path);
        let r = removed(list, path);
        lemma_removed(shorter, path);
        assert forall|x: Seq<char>| #[trigger] r.contains(x) <==> list.contains(x) && !same_path(
            x,
            path,
        ) by {
            if r.contains(x) {
                let k = choose|k: int| 0 <= k < r.len() && r[k] == x;
                if k < rest.len() {
                    assert(rest[k] == x);
                    assert(rest.contains(x));
                    let m = choose|m: int| 0 <= m < shorter.len() && shorter[m] == x;
                    assert(list[m] == x);
                } else {
                    assert(list[list.len() - 1] == x);
                }
            }
            if list.contains(x) && !same_path(x, path) {
                let k = choose|k: int| 0 <= k < list.len() && list[k] == x;
                if k < shorter.len() {
                    assert(shorter[k] == x);
                    assert(shorter.contains(x));
                    assert(rest.contains(x));
                    let m = choose|m: int| 0 <= m < rest.len() && rest[m] == x;
                    assert(r[m] == x);
                } else {
                    assert(r[r.len() - 1] == x);
                }
            }
        }
    }
}

/// What a list holds without some paths: what it held, but no spelling of any
/// of them.
pub proof fn lemma_without(list: Seq<Seq<char>>, dropped: Seq<Seq<char>>)
    ensures
        forall|x: Seq<char>| #[trigger]
            without(list, dropped).contains(x) <==> list.contains(x) && !holds_path(dropped, x),
    decreases dropped.len(),
{
    if dropped.len() > 0 {
        let shorter = dropped.drop_last();
        lemma_without(list, shorter);
        lemma_removed(without(list, shorter), dropped.last());
        assert forall|x: Seq<char>| #[trigger] without(list, dropped).contains(x) <==> list.contains(
            x,
        ) && !holds_path(dropped, x) by {
            if holds_path(dropped, x) {
                let y = choose|y: Seq<char>| #[trigger] dropped.contains(y) && same_path(y, x);
                let k = choose|k: int| 0 <= k < dropped.len() && dropped[k] == y;
                if k < shorter.len() {
                    assert(shorter[k] == y);
                    assert(shorter.contains(y));
                    assert(holds_path(shorter, x));
                }
            } else {
                assert(dropped[dropped.len() - 1] == dropped.last());
                assert(dropped.contains(dropped.last()));
                if holds_path(shorter, x) {
                    let y = choose|y: Seq<char>| #[trigger] shorter.contains(y) && same_path(y, x);
                    let k = choose|k: int| 0 <= k < shorter.len() && shorter[k] == y;
                    assert(dropped[k] == y);
                    assert(dropped.contains(y));
                }
            }
        }
    }
}

} // verus!
