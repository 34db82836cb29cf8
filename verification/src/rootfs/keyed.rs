//! What a key stands for: one plan, and one state of its files.

use vstd::prelude::*;
use vstd::utf8::encode_utf8;

use crate::bytes::{fingerprint, hex_decoded, hex_of, law_hex_reads_back};
use crate::rootfs::{key_line, key_text, plan_key, EntryView, FileStamp};
use crate::text::{decimal, digit, lemma_utf8_injective};

verus! {

/// No path of the entries holds the null character, which no host allows in a
/// path.
pub open spec fn null_free(entries: Seq<EntryView>) -> bool {
    forall|i: int| 0 <= i < entries.len() ==> !(#[trigger] entries[i]).src.contains('\0')
}

/// The host says the same of each file of the entries. What it says of a
/// directory does not matter.
pub open spec fn same_files(
    entries: Seq<EntryView>,
    s: Seq<Option<FileStamp>>,
    t: Seq<Option<FileStamp>>,
) -> bool {
    forall|i: int| 0 <= i < entries.len() && !(#[trigger] entries[i]).is_dir ==> s[i] == t[i]
}

/// No character of the text is a stop.
spec fn runs_on(text: Seq<char>, stop: spec_fn(char) -> bool) -> bool {
    forall|i: int| 0 <= i < text.len() ==> !stop(#[trigger] text[i])
}

/// A text that runs on to its first stop is determined by what it begins.
proof fn lemma_first_stop(
    a: Seq<char>,
    b: Seq<char>,
    x: Seq<char>,
    y: Seq<char>,
    stop: spec_fn(char) -> bool,
)
    requires
        a + x == b + y,
        runs_on(a, stop),
        runs_on(b, stop),
        x.len() > 0,
        y.len() > 0,
        stop(x[0]),
        stop(y[0]),
    ensures
        a == b,
        x == y,
{
    let whole = a + x;
    if a.len() < b.len() {
        assert(whole[a.len() as int] == x[0]);
        assert((b + y)[a.len() as int] == b[a.len() as int]);
    }
    if b.len() < a.len() {
        assert((b + y)[b.len() as int] == y[0]);
        assert(whole[b.len() as int] == a[b.len() as int]);
    }
    assert forall|i: int| 0 <= i < a.len() implies a[i] == b[i] by {
        assert(whole[i] == a[i] && (b + y)[i] == b[i]);
    }
    assert(a =~= b);
    assert(whole.len() == (b + y).len());
    assert forall|i: int| 0 <= i < x.len() implies x[i] == y[i] by {
        assert(whole[a.len() + i] == x[i] && (b + y)[b.len() + i] == y[i]);
    }
    assert(x =~= y);
}

spec fn is_digit(c: char) -> bool {
    '0' <= c <= '9'
}

proof fn lemma_decimal_digits(n: nat)
    ensures
        forall|i: int| 0 <= i < decimal(n).len() ==> is_digit(#[trigger] decimal(n)[i]),
        decimal(n).len() > 0,
    decreases n,
{
    assert(digit(n % 10) as int == '0' as int + n % 10);
    if n >= 10 {
        lemma_decimal_digits(n / 10);
    }
}

proof fn lemma_decimal_injective(m: nat, n: nat)
    requires
        decimal(m) == decimal(n),
    ensures
        m == n,
    decreases m,
{
    assert(digit(m % 10) as int == '0' as int + m % 10);
    assert(digit(n % 10) as int == '0' as int + n % 10);
    lemma_decimal_digits(m / 10);
    lemma_decimal_digits(n / 10);
    assert(decimal(m).last() == digit(m % 10));
    assert(decimal(n).last() == digit(n % 10));
    if m >= 10 && n >= 10 {
        assert(decimal(m).drop_last() =~= decimal(m / 10));
        assert(decimal(n).drop_last() =~= decimal(n / 10));
        lemma_decimal_injective(m / 10, n / 10);
    }
}

/// What the line of a file says of its time.
spec fn time_text(modified: Option<u128>) -> Seq<char> {
    match modified {
        Some(t) => seq!['\0'] + (decimal(t as nat) + seq!['\n']),
        None => seq!['\n'],
    }
}

/// What the line of a file says of it, behind the letter for its sort.
spec fn stamp_text(stamp: Option<FileStamp>) -> Seq<char> {
    match stamp {
        None => seq!['\n'],
        Some(s) => seq!['\0'] + (decimal(s.len as nat) + time_text(s.modified)),
    }
}

/// What a line says behind the path.
spec fn line_tail(entry: EntryView, stamp: Option<FileStamp>) -> Seq<char> {
    seq!['\0', 'r', if entry.writable { 'w' } else { 'o' }, '\0', if entry.is_dir {
        'd'
    } else {
        'f'
    }] + stamp_text(if entry.is_dir { None } else { stamp })
}

proof fn lemma_line(entry: EntryView, stamp: Option<FileStamp>)
    ensures
        key_line(entry, stamp) == entry.src + line_tail(entry, stamp),
{
    reveal_strlit("\0");
    reveal_strlit("\n");
    reveal_strlit("rw");
    reveal_strlit("ro");
    reveal_strlit("d");
    reveal_strlit("f");
    assert(key_line(entry, stamp) =~= entry.src + line_tail(entry, stamp));
}

/// Texts that agree begin with the same character and go on alike.
proof fn lemma_heads(c: char, d: char, a: Seq<char>, b: Seq<char>, x: Seq<char>, y: Seq<char>)
    requires
        seq![c] + a + x == seq![d] + b + y,
    ensures
        c == d,
        a + x == b + y,
{
    let (u, v) = (seq![c] + a + x, seq![d] + b + y);
    assert(u[0] == c && v[0] == d);
    assert(u.subrange(1, u.len() as int) =~= a + x);
    assert(v.subrange(1, v.len() as int) =~= b + y);
}

/// A number ends at the first character that is no digit.
proof fn lemma_number(m: nat, n: nat, x: Seq<char>, y: Seq<char>)
    requires
        decimal(m) + x == decimal(n) + y,
        x.len() > 0,
        y.len() > 0,
        !is_digit(x[0]),
        !is_digit(y[0]),
    ensures
        m == n,
        x == y,
{
    lemma_decimal_digits(m);
    lemma_decimal_digits(n);
    lemma_first_stop(decimal(m), decimal(n), x, y, |c: char| !is_digit(c));
    lemma_decimal_injective(m, n);
}

proof fn lemma_time(s: Option<u128>, t: Option<u128>, x: Seq<char>, y: Seq<char>)
    requires
        time_text(s) + x == time_text(t) + y,
    ensures
        s == t,
        x == y,
{
    let none = Seq::<char>::empty();
    assert(seq!['\n'] + none =~= seq!['\n']);
    assert(none + x =~= x);
    assert(none + y =~= y);
    match (s, t) {
        (Some(m), Some(n)) => {
            let (dm, dn) = (decimal(m as nat), decimal(n as nat));
            lemma_heads('\0', '\0', dm + seq!['\n'], dn + seq!['\n'], x, y);
            assert(dm + seq!['\n'] + x =~= dm + (seq!['\n'] + x));
            assert(dn + seq!['\n'] + y =~= dn + (seq!['\n'] + y));
            lemma_number(m as nat, n as nat, seq!['\n'] + x, seq!['\n'] + y);
            assert(seq!['\n'] + none + x =~= seq!['\n'] + x);
            assert(seq!['\n'] + none + y =~= seq!['\n'] + y);
            lemma_heads('\n', '\n', none, none, x, y);
        },
        (Some(m), None) => {
            lemma_heads('\0', '\n', decimal(m as nat) + seq!['\n'], none, x, y);
        },
        (None, Some(n)) => {
            lemma_heads('\n', '\0', none, decimal(n as nat) + seq!['\n'], x, y);
        },
        (None, None) => {
            lemma_heads('\n', '\n', none, none, x, y);
        },
    }
}

proof fn lemma_stamp(s: Option<FileStamp>, t: Option<FileStamp>, x: Seq<char>, y: Seq<char>)
    requires
        stamp_text(s) + x == stamp_text(t) + y,
    ensures
        s == t,
        x == y,
{
    let none = Seq::<char>::empty();
    assert(seq!['\n'] + none =~= seq!['\n']);
    assert(none + x =~= x);
    assert(none + y =~= y);
    match (s, t) {
        (Some(a), Some(b)) => {
            let (da, db) = (decimal(a.len as nat), decimal(b.len as nat));
            let (ta, tb) = (time_text(a.modified), time_text(b.modified));
            lemma_heads('\0', '\0', da + ta, db + tb, x, y);
            assert(da + ta + x =~= da + (ta + x));
            assert(db + tb + y =~= db + (tb + y));
            assert((ta + x)[0] == ta[0] && (tb + y)[0] == tb[0]);
            lemma_number(a.len as nat, b.len as nat, ta + x, tb + y);
            lemma_time(a.modified, b.modified, x, y);
        },
        (Some(a), None) => {
            lemma_heads(
                '\0',
                '\n',
                decimal(a.len as nat) + time_text(a.modified),
                none,
                x,
                y,
            );
        },
        (None, Some(b)) => {
            lemma_heads(
                '\n',
                '\0',
                none,
                decimal(b.len as nat) + time_text(b.modified),
                x,
                y,
            );
        },
        (None, None) => {
            lemma_heads('\n', '\n', none, none, x, y);
        },
    }
}

/// A line tells the entry, the state of its file, and where it ends.
proof fn lemma_line_ends_where_it_says(
    a: EntryView,
    s: Option<FileStamp>,
    b: EntryView,
    t: Option<FileStamp>,
    x: Seq<char>,
    y: Seq<char>,
)
    requires
        !a.src.contains('\0'),
        !b.src.contains('\0'),
        key_line(a, s) + x == key_line(b, t) + y,
    ensures
        a == b,
        !a.is_dir ==> s == t,
        x == y,
{
    lemma_line(a, s);
    lemma_line(b, t);
    let stop = |c: char| c == '\0';
    let (u, v) = (line_tail(a, s) + x, line_tail(b, t) + y);
    assert(a.src + u =~= key_line(a, s) + x);
    assert(b.src + v =~= key_line(b, t) + y);
    assert(u[0] == line_tail(a, s)[0] && v[0] == line_tail(b, t)[0]);
    assert forall|i: int| 0 <= i < a.src.len() implies !stop(#[trigger] a.src[i]) by {
        assert(a.src.contains(a.src[i]));
    }
    assert forall|i: int| 0 <= i < b.src.len() implies !stop(#[trigger] b.src[i]) by {
        assert(b.src.contains(b.src[i]));
    }
    lemma_first_stop(a.src, b.src, u, v, stop);
    assert(u[2] == line_tail(a, s)[2] && v[2] == line_tail(b, t)[2]);
    assert(u[4] == line_tail(a, s)[4] && v[4] == line_tail(b, t)[4]);
    let sa = if a.is_dir { None } else { s };
    let sb = if b.is_dir { None } else { t };
    assert(stamp_text(sa) + x =~= u.subrange(5, u.len() as int));
    assert(stamp_text(sb) + y =~= v.subrange(5, v.len() as int));
    lemma_stamp(sa, sb, x, y);
}

/// The text of a plan begins with the line of its first entry.
proof fn lemma_first_line(p: Seq<EntryView>, s: Seq<Option<FileStamp>>)
    requires
        p.len() > 0,
        p.len() == s.len(),
    ensures
        key_text(p, s) == key_line(p[0], s[0]) + key_text(
            p.subrange(1, p.len() as int),
            s.subrange(1, s.len() as int),
        ),
    decreases p.len(),
{
    let rest = p.subrange(1, p.len() as int);
    let stamps = s.subrange(1, s.len() as int);
    if p.len() == 1 {
        assert(p.drop_last() =~= Seq::empty());
        assert(key_text(p.drop_last(), s) =~= Seq::empty());
        assert(key_text(rest, stamps) =~= Seq::empty());
        assert(key_text(p, s) =~= key_line(p[0], s[0]) + key_text(rest, stamps));
    } else {
        let shorter = p.drop_last();
        let fewer = s.drop_last();
        lemma_first_line(shorter, fewer);
        lemma_later_stamps(shorter, s, fewer);
        assert(rest.drop_last() =~= shorter.subrange(1, shorter.len() as int));
        lemma_later_stamps(rest.drop_last(), stamps, fewer.subrange(1, fewer.len() as int));
        assert(rest.last() == p.last());
        assert(stamps[rest.len() - 1] == s[p.len() - 1]);
        assert(key_text(p, s) =~= key_line(p[0], s[0]) + key_text(rest, stamps));
    }
}

/// The text of a plan depends on the stamps of its files alone.
proof fn lemma_later_stamps(
    p: Seq<EntryView>,
    s: Seq<Option<FileStamp>>,
    t: Seq<Option<FileStamp>>,
)
    requires
        same_files(p, s, t),
    ensures
        key_text(p, s) == key_text(p, t),
    decreases p.len(),
{
    if p.len() > 0 {
        assert forall|i: int|
            0 <= i < p.drop_last().len() && !(#[trigger] p.drop_last()[i]).is_dir implies s[i]
            == t[i] by {
            assert(p.drop_last()[i] == p[i]);
        }
        lemma_later_stamps(p.drop_last(), s, t);
        assert(p[p.len() - 1] == p.last());
    }
}

/// Plans with the same text agree.
#[verifier::spinoff_prover]
proof fn lemma_same_text(
    p: Seq<EntryView>,
    s: Seq<Option<FileStamp>>,
    q: Seq<EntryView>,
    t: Seq<Option<FileStamp>>,
)
    requires
        s.len() == p.len(),
        t.len() == q.len(),
        null_free(p),
        null_free(q),
        key_text(p, s) == key_text(q, t),
    ensures
        p == q,
        same_files(p, s, t),
    decreases p.len(),
{
    lemma_text_of_some(p, s);
    lemma_text_of_some(q, t);
    if p.len() > 0 {
        let (pr, sr) = (p.subrange(1, p.len() as int), s.subrange(1, s.len() as int));
        let (qr, tr) = (q.subrange(1, q.len() as int), t.subrange(1, t.len() as int));
        lemma_first_line(p, s);
        lemma_first_line(q, t);
        lemma_line_ends_where_it_says(p[0], s[0], q[0], t[0], key_text(pr, sr), key_text(qr, tr));
        assert forall|i: int| 0 <= i < pr.len() implies !(#[trigger] pr[i]).src.contains('\0') by {
            assert(pr[i] == p[i + 1]);
        }
        assert forall|i: int| 0 <= i < qr.len() implies !(#[trigger] qr[i]).src.contains('\0') by {
            assert(qr[i] == q[i + 1]);
        }
        lemma_same_text(pr, sr, qr, tr);
        assert(p =~= seq![p[0]] + pr);
        assert(q =~= seq![q[0]] + qr);
        assert forall|i: int| 0 <= i < p.len() && !(#[trigger] p[i]).is_dir implies s[i]
            == t[i] by {
            if i > 0 {
                assert(pr[i - 1] == p[i]);
                assert(sr[i - 1] == s[i] && tr[i - 1] == t[i]);
            }
        }
    } else {
        assert(p =~= q);
    }
}

/// Only the plan of nothing has an empty text.
proof fn lemma_text_of_some(p: Seq<EntryView>, s: Seq<Option<FileStamp>>)
    ensures
        key_text(p, s).len() == 0 <==> p.len() == 0,
{
    if p.len() > 0 {
        lemma_line(p.last(), s[p.len() - 1]);
    }
}

/// The text that a plan is keyed by tells the plan and the state of its files:
/// it is the same for two plans exactly where their entries agree, each in
/// path, access and sort, and the host says the same of each file.
pub proof fn law_the_keyed_text_tells_plans_apart(
    p: Seq<EntryView>,
    s: Seq<Option<FileStamp>>,
    q: Seq<EntryView>,
    t: Seq<Option<FileStamp>>,
)
    requires
        s.len() == p.len(),
        t.len() == q.len(),
        null_free(p),
        null_free(q),
    ensures
        key_text(p, s) == key_text(q, t) <==> p == q && same_files(p, s, t),
{
    if p == q && same_files(p, s, t) {
        lemma_later_stamps(p, s, t);
    }
    if key_text(p, s) == key_text(q, t) {
        lemma_same_text(p, s, q, t);
    }
}

/// Plans that agree, over files of which the host says the same, have one key.
/// Two plans with one key agree so, unless two different texts have one
/// digest.
pub proof fn law_a_key_stands_for_one_plan(
    p: Seq<EntryView>,
    s: Seq<Option<FileStamp>>,
    q: Seq<EntryView>,
    t: Seq<Option<FileStamp>>,
)
    requires
        s.len() == p.len(),
        t.len() == q.len(),
        null_free(p),
        null_free(q),
    ensures
        p == q && same_files(p, s, t) ==> plan_key(p, s) == plan_key(q, t),
        plan_key(p, s) == plan_key(q, t) ==> (p == q && same_files(p, s, t)) || (encode_utf8(
            key_text(p, s),
        ) != encode_utf8(key_text(q, t)) && fingerprint(encode_utf8(key_text(p, s)))
            == fingerprint(encode_utf8(key_text(q, t)))),
{
    law_the_keyed_text_tells_plans_apart(p, s, q, t);
    let (a, b) = (encode_utf8(key_text(p, s)), encode_utf8(key_text(q, t)));
    if plan_key(p, s) == plan_key(q, t) {
        law_hex_reads_back(fingerprint(a));
        law_hex_reads_back(fingerprint(b));
        assert(hex_decoded(encode_utf8(hex_of(fingerprint(a))))
            == hex_decoded(encode_utf8(hex_of(fingerprint(b)))));
        if a == b {
            lemma_utf8_injective(key_text(p, s), key_text(q, t));
        }
    }
}

} // verus!
