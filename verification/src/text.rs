//! Small string operations with exact contracts.
//!
//! A string is modelled by its sequence of characters; where bytes matter (a
//! length limit, an order, a signed payload) by its UTF-8 encoding.

use vstd::prelude::*;
use vstd::string::*;
use vstd::utf8::*;

use crate::sets::views;

pub mod laws;

verus! {

/// `String::push`: the character is appended to the end of the string.
pub assume_specification[ String::push ](s: &mut String, c: char)
    ensures
        final(s)@ == old(s)@.push(c),
;

/// Two strings with the same UTF-8 encoding hold the same characters.
pub proof fn lemma_utf8_injective(a: Seq<char>, b: Seq<char>)
    requires
        encode_utf8(a) == encode_utf8(b),
    ensures
        a == b,
{
    encode_utf8_decode_utf8(a);
    encode_utf8_decode_utf8(b);
}

/// Whether two byte slices hold the same bytes.
pub fn bytes_equal(a: &[u8], b: &[u8]) -> (r: bool)
    ensures
        r == (a@ == b@),
{
    if a.len() != b.len() {
        return false;
    }
    let mut i: usize = 0;
    while i < a.len()
        invariant
            i <= a.len(),
            a.len() == b.len(),
            forall|k: int| 0 <= k < i ==> a@[k] == b@[k],
        decreases a.len() - i,
    {
        if a[i] != b[i] {
            return false;
        }
        i = i + 1;
    }
    assert(a@ =~= b@);
    true
}

/// Whether two string slices hold the same characters.
pub fn str_equal(a: &str, b: &str) -> (r: bool)
    ensures
        r == (a@ == b@),
{
    let r: bool = bytes_equal(a.as_bytes(), b.as_bytes());
    proof {
        if r {
            lemma_utf8_injective(a@, b@);
        }
    }
    r
}

/// The strict lexicographic order on byte sequences.
pub open spec fn bytes_below(a: Seq<u8>, b: Seq<u8>) -> bool
    decreases a.len(),
{
    if b.len() == 0 {
        false
    } else if a.len() == 0 {
        true
    } else if a[0] != b[0] {
        a[0] < b[0]
    } else {
        bytes_below(a.subrange(1, a.len() as int), b.subrange(1, b.len() as int))
    }
}

pub proof fn lemma_bytes_below_irreflexive(a: Seq<u8>)
    ensures
        !bytes_below(a, a),
    decreases a.len(),
{
    if a.len() > 0 {
        lemma_bytes_below_irreflexive(a.subrange(1, a.len() as int));
    }
}

pub proof fn lemma_bytes_below_transitive(a: Seq<u8>, b: Seq<u8>, c: Seq<u8>)
    requires
        bytes_below(a, b),
        bytes_below(b, c),
    ensures
        bytes_below(a, c),
    decreases a.len(),
{
    if a.len() > 0 && a[0] == b[0] && b[0] == c[0] {
        lemma_bytes_below_transitive(
            a.subrange(1, a.len() as int),
            b.subrange(1, b.len() as int),
            c.subrange(1, c.len() as int),
        );
    }
}

pub proof fn lemma_bytes_below_total(a: Seq<u8>, b: Seq<u8>)
    ensures
        a == b || bytes_below(a, b) || bytes_below(b, a),
    decreases a.len(),
{
    if a.len() == 0 || b.len() == 0 {
        if a.len() == 0 && b.len() == 0 {
            assert(a =~= b);
        }
    } else if a[0] == b[0] {
        let ta = a.subrange(1, a.len() as int);
        let tb = b.subrange(1, b.len() as int);
        lemma_bytes_below_total(ta, tb);
        if ta == tb {
            assert(a.len() == ta.len() + 1 && b.len() == tb.len() + 1);
            assert forall|k: int| 0 <= k < a.len() implies a[k] == b[k] by {
                if k > 0 {
                    assert(a[k] == ta[k - 1]);
                    assert(b[k] == tb[k - 1]);
                }
            }
            assert(a =~= b);
        }
    }
}

/// A common prefix does not change the order.
proof fn lemma_bytes_below_prefix(a: Seq<u8>, b: Seq<u8>, n: int)
    requires
        0 <= n <= a.len(),
        n <= b.len(),
        forall|k: int| 0 <= k < n ==> a[k] == b[k],
    ensures
        bytes_below(a, b) == bytes_below(
            a.subrange(n, a.len() as int),
            b.subrange(n, b.len() as int),
        ),
    decreases n,
{
    if n == 0 {
        assert(a.subrange(0, a.len() as int) =~= a);
        assert(b.subrange(0, b.len() as int) =~= b);
    } else {
        let ta = a.subrange(1, a.len() as int);
        let tb = b.subrange(1, b.len() as int);
        assert forall|k: int| 0 <= k < n - 1 implies ta[k] == tb[k] by {
            assert(a[k + 1] == b[k + 1]);
        }
        lemma_bytes_below_prefix(ta, tb, n - 1);
        assert(ta.subrange(n - 1, ta.len() as int) =~= a.subrange(n, a.len() as int));
        assert(tb.subrange(n - 1, tb.len() as int) =~= b.subrange(n, b.len() as int));
        assert(a[0] == b[0]);
    }
}

/// Whether `a` comes strictly before `b` in the lexicographic order of bytes.
pub fn bytes_less(a: &[u8], b: &[u8]) -> (r: bool)
    ensures
        r == bytes_below(a@, b@),
{
    let mut i: usize = 0;
    while i < a.len() && i < b.len()
        invariant
            i <= a.len(),
            i <= b.len(),
            forall|k: int| 0 <= k < i ==> a@[k] == b@[k],
        decreases a.len() - i,
    {
        if a[i] != b[i] {
            proof {
                lemma_bytes_below_prefix(a@, b@, i as int);
                assert(a@.subrange(i as int, a@.len() as int)[0] == a@[i as int]);
                assert(b@.subrange(i as int, b@.len() as int)[0] == b@[i as int]);
            }
            return a[i] < b[i];
        }
        i = i + 1;
    }
    proof {
        lemma_bytes_below_prefix(a@, b@, i as int);
    }
    i < b.len()
}

/// The order of strings: lexicographic by UTF-8 bytes.
pub open spec fn str_below(a: Seq<char>, b: Seq<char>) -> bool {
    bytes_below(encode_utf8(a), encode_utf8(b))
}

/// Whether `a` comes strictly before `b`.
pub fn str_less(a: &str, b: &str) -> (r: bool)
    ensures
        r == str_below(a@, b@),
{
    bytes_less(a.as_bytes(), b.as_bytes())
}

/// What `<str as core::fmt::Debug>::fmt` writes for a string: the string in
/// double quotes, with escapes.
pub uninterp spec fn quoted(s: Seq<char>) -> Seq<char>;

/// The string in double quotes, with escapes, as
/// `<str as core::fmt::Debug>::fmt` writes it.
#[verifier::external_body]
pub(crate) fn quote(s: &str) -> (r: String)
    ensures
        r@ == quoted(s@),
{
    format!("{s:?}")
}

/// The decimal digit with the value `d`.
pub open spec fn digit(d: nat) -> char {
    (('0' as u32) + d) as char
}

/// The decimal notation of a number: no sign, no leading zeros.
pub open spec fn decimal(n: nat) -> Seq<char>
    decreases n,
{
    if n < 10 {
        seq![digit(n)]
    } else {
        decimal(n / 10).push(digit(n % 10))
    }
}

/// The decimal notation of `n`.
pub fn decimal_of(n: u64) -> (r: String)
    ensures
        r@ == decimal(n as nat),
    decreases n,
{
    let c: char = match n % 10 {
        0 => '0',
        1 => '1',
        2 => '2',
        3 => '3',
        4 => '4',
        5 => '5',
        6 => '6',
        7 => '7',
        8 => '8',
        _ => '9',
    };
    assert(c == digit((n % 10) as nat));
    let mut r: String = if n < 10 {
        String::new()
    } else {
        decimal_of(n / 10)
    };
    r.push(c);
    assert(r@ =~= decimal(n as nat));
    r
}

/// The characters of a string, in order.
pub fn chars_of(s: &str) -> (r: Vec<char>)
    ensures
        r@ == s@,
{
    let mut r: Vec<char> = Vec::new();
    for c in it: s.chars()
        invariant
            r@ == s@.take(it.index() as int),
            it.seq() == s@,
    {
        r.push(c);
        assert(s@.take(it.index() + 1) =~= s@.take(it.index() as int).push(c));
    }
    assert(s@.take(s@.len() as int) =~= s@);
    r
}

/// The string of the characters `from` (with) up to `to` (without).
pub fn string_of(chars: &Vec<char>, from: usize, to: usize) -> (r: String)
    requires
        from <= to <= chars.len(),
    ensures
        r@ == chars@.subrange(from as int, to as int),
{
    let mut r: String = String::new();
    let mut i: usize = from;
    while i < to
        invariant
            from <= i <= to <= chars.len(),
            r@ == chars@.subrange(from as int, i as int),
        decreases to - i,
    {
        r.push(chars[i]);
        assert(chars@.subrange(from as int, i + 1) =~= chars@.subrange(from as int, i as int).push(
            chars@[i as int],
        ));
        i = i + 1;
    }
    r
}

/// The pieces of `s` between the occurrences of `c`: one more piece than
/// occurrences, each without `c`.
pub open spec fn split(s: Seq<char>, c: char) -> Seq<Seq<char>>
    decreases s.len(),
{
    if s.len() == 0 {
        seq![Seq::empty()]
    } else {
        let rest = split(s.drop_last(), c);
        if s.last() == c {
            rest.push(Seq::empty())
        } else {
            rest.drop_last().push(rest.last().push(s.last()))
        }
    }
}

/// A split has at least one piece, and no piece holds the separator.
pub proof fn lemma_split_pieces(s: Seq<char>, c: char)
    ensures
        split(s, c).len() >= 1,
        forall|i: int, k: int|
            0 <= i < split(s, c).len() && 0 <= k < (#[trigger] split(s, c)[i]).len() ==> #[trigger]
            split(s, c)[i][k] != c,
    decreases s.len(),
{
    if s.len() > 0 {
        lemma_split_pieces(s.drop_last(), c);
    }
}

/// Splitting at a separator between two texts splits each text.
pub proof fn lemma_split_concat(a: Seq<char>, b: Seq<char>, c: char)
    ensures
        split(a.push(c) + b, c) == split(a, c) + split(b, c),
    decreases b.len(),
{
    lemma_split_pieces(b, c);
    let whole = a.push(c) + b;
    if b.len() == 0 {
        assert(whole =~= a.push(c));
        assert(whole.drop_last() =~= a);
        assert(split(whole, c) =~= split(a, c) + split(b, c));
    } else {
        assert(whole.drop_last() =~= a.push(c) + b.drop_last());
        assert(whole.last() == b.last());
        lemma_split_concat(a, b.drop_last(), c);
        lemma_split_pieces(b.drop_last(), c);
        let sa = split(a, c);
        let sb = split(b.drop_last(), c);
        assert((sa + sb).last() == sb.last());
        assert((sa + sb).drop_last() =~= sa + sb.drop_last());
        assert(split(whole, c) =~= sa + split(b, c));
    }
}

/// A text without the separator is its own only piece.
pub proof fn lemma_split_single(s: Seq<char>, c: char)
    requires
        forall|k: int| 0 <= k < s.len() ==> s[k] != c,
    ensures
        split(s, c) == seq![s],
    decreases s.len(),
{
    if s.len() > 0 {
        lemma_split_single(s.drop_last(), c);
        assert(split(s, c) =~= seq![s.drop_last().push(s.last())]);
        assert(s.drop_last().push(s.last()) =~= s);
    } else {
        assert(s =~= Seq::empty());
    }
}

/// The pieces of `s` between the occurrences of `c`.
pub fn split_text(s: &str, c: char) -> (r: Vec<String>)
    ensures
        views(r@) == split(s@, c),
{
    let chars: Vec<char> = chars_of(s);
    let mut r: Vec<String> = Vec::new();
    let mut piece: String = String::new();
    let mut i: usize = 0;
    assert(views(r@).push(piece@) =~= split(chars@.take(0), c));
    while i < chars.len()
        invariant
            i <= chars.len(),
            views(r@).push(piece@) == split(chars@.take(i as int), c),
        decreases chars.len() - i,
    {
        let ghost before = views(r@);
        let ghost head = piece@;
        proof {
            let longer = chars@.take(i + 1);
            assert(longer.drop_last() =~= chars@.take(i as int));
            assert(longer.last() == chars@[i as int]);
            assert(before.push(head).drop_last() =~= before);
            assert(before.push(head).last() == head);
        }
        if chars[i] == c {
            r.push(piece);
            piece = String::new();
            assert(views(r@) =~= before.push(head));
        } else {
            piece.push(chars[i]);
        }
        i = i + 1;
    }
    r.push(piece);
    proof {
        assert(chars@.take(i as int) =~= s@);
        assert(views(r@) =~= split(s@, c));
    }
    r
}

/// The first place of `c` in `s`, or the length of `s` where there is none.
pub open spec fn first_at(s: Seq<char>, c: char) -> int
    decreases s.len(),
{
    if s.len() == 0 || s[0] == c {
        0
    } else {
        1 + first_at(s.subrange(1, s.len() as int), c)
    }
}

/// The last place of `c` in `s`, or -1 where there is none.
pub open spec fn last_at(s: Seq<char>, c: char) -> int
    decreases s.len(),
{
    if s.len() == 0 {
        -1
    } else if s.last() == c {
        s.len() - 1
    } else {
        last_at(s.drop_last(), c)
    }
}

/// `first_at` is the only place with `c` at it and none before it.
pub proof fn lemma_first_at(s: Seq<char>, c: char, i: int)
    requires
        0 <= i <= s.len(),
        i < s.len() ==> s[i] == c,
        forall|k: int| 0 <= k < i ==> s[k] != c,
    ensures
        first_at(s, c) == i,
    decreases s.len(),
{
    if i > 0 {
        let tail = s.subrange(1, s.len() as int);
        assert forall|k: int| 0 <= k < i - 1 implies tail[k] != c by {
            assert(s[k + 1] != c);
        }
        lemma_first_at(tail, c, i - 1);
    }
}

/// `last_at` is the only place with `c` at it and none behind it.
pub proof fn lemma_last_at(s: Seq<char>, c: char, i: int)
    requires
        -1 <= i < s.len(),
        i >= 0 ==> s[i] == c,
        forall|k: int| i < k < s.len() ==> s[k] != c,
    ensures
        last_at(s, c) == i,
    decreases s.len(),
{
    if i < s.len() - 1 {
        lemma_last_at(s.drop_last(), c, i);
    }
}

/// The first place of `c` from `from` on, counted from `from`.
pub fn find_from(chars: &Vec<char>, c: char, from: usize) -> (r: usize)
    requires
        from <= chars.len(),
    ensures
        from <= r <= chars.len(),
        r - from == first_at(chars@.subrange(from as int, chars@.len() as int), c),
        r < chars.len() ==> chars@[r as int] == c,
        forall|k: int| from <= k < r ==> chars@[k] != c,
{
    let mut i: usize = from;
    while i < chars.len() && chars[i] != c
        invariant
            from <= i <= chars.len(),
            forall|k: int| from <= k < i ==> chars@[k] != c,
        decreases chars.len() - i,
    {
        i = i + 1;
    }
    proof {
        lemma_first_at(chars@.subrange(from as int, chars@.len() as int), c, i - from);
    }
    i
}

/// The last place of `c`, if there is one.
pub fn find_last(chars: &Vec<char>, c: char) -> (r: Option<usize>)
    ensures
        match r {
            Some(i) => i < chars.len() && last_at(chars@, c) == i && chars@[i as int] == c,
            None => last_at(chars@, c) == -1 && forall|k: int|
                0 <= k < chars.len() ==> chars@[k] != c,
        },
{
    let mut i: usize = chars.len();
    while i > 0
        invariant
            i <= chars.len(),
            forall|k: int| i <= k < chars.len() ==> chars@[k] != c,
        decreases i,
    {
        i = i - 1;
        if chars[i] == c {
            proof {
                lemma_last_at(chars@, c, i as int);
            }
            return Some(i);
        }
    }
    proof {
        lemma_last_at(chars@, c, -1);
    }
    None
}

/// `needle` occurs in `hay`.
pub open spec fn occurs_in(needle: Seq<char>, hay: Seq<char>) -> bool {
    exists|i: int| #[trigger] occurs_at(needle, hay, i)
}

/// `needle` occurs in `hay` at place `i`.
pub open spec fn occurs_at(needle: Seq<char>, hay: Seq<char>, i: int) -> bool {
    0 <= i && i + needle.len() <= hay.len() && hay.subrange(i, i + needle.len()) == needle
}

/// Whether `needle` stands in `hay` at place `at`.
pub fn matches_at(hay: &Vec<char>, at: usize, needle: &Vec<char>) -> (r: bool)
    requires
        at <= hay.len(),
    ensures
        r == occurs_at(needle@, hay@, at as int),
{
    if needle.len() > hay.len() - at {
        return false;
    }
    let mut k: usize = 0;
    while k < needle.len()
        invariant
            k <= needle.len(),
            at + needle.len() <= hay.len(),
            forall|m: int| 0 <= m < k ==> hay@[at + m] == needle@[m],
        decreases needle.len() - k,
    {
        if hay[at + k] != needle[k] {
            assert(hay@.subrange(at as int, at + needle@.len())[k as int] != needle@[k as int]);
            return false;
        }
        k = k + 1;
    }
    assert(hay@.subrange(at as int, at + needle@.len()) =~= needle@);
    true
}

/// Whether `needle` occurs in `hay`.
pub fn text_contains(hay: &Vec<char>, needle: &Vec<char>) -> (r: bool)
    ensures
        r == occurs_in(needle@, hay@),
{
    let mut i: usize = 0;
    loop
        invariant
            i <= hay.len(),
            forall|k: int| 0 <= k < i ==> !occurs_at(needle@, hay@, k),
        decreases hay.len() - i,
    {
        if matches_at(hay, i, needle) {
            return true;
        }
        if i == hay.len() {
            assert forall|k: int| !occurs_at(needle@, hay@, k) by {}
            return false;
        }
        i = i + 1;
    }
}

/// The text without leading `c`.
pub open spec fn trim_start(s: Seq<char>, c: char) -> Seq<char>
    decreases s.len(),
{
    if s.len() > 0 && s[0] == c {
        trim_start(s.subrange(1, s.len() as int), c)
    } else {
        s
    }
}

/// The text without trailing `c`.
pub open spec fn trim_end(s: Seq<char>, c: char) -> Seq<char>
    decreases s.len(),
{
    if s.len() > 0 && s.last() == c {
        trim_end(s.drop_last(), c)
    } else {
        s
    }
}

/// The text without `c` at either end.
pub open spec fn trimmed(s: Seq<char>, c: char) -> Seq<char> {
    trim_end(trim_start(s, c), c)
}

proof fn lemma_trim_start(s: Seq<char>, c: char, i: int)
    requires
        0 <= i <= s.len(),
        forall|k: int| 0 <= k < i ==> s[k] == c,
    ensures
        trim_start(s, c) == trim_start(s.subrange(i, s.len() as int), c),
    decreases i,
{
    if i > 0 {
        let tail = s.subrange(1, s.len() as int);
        assert forall|k: int| 0 <= k < i - 1 implies tail[k] == c by {
            assert(s[k + 1] == c);
        }
        assert(s[0] == c);
        lemma_trim_start(tail, c, i - 1);
        assert(tail.subrange(i - 1, tail.len() as int) =~= s.subrange(i, s.len() as int));
    } else {
        assert(s.subrange(0, s.len() as int) =~= s);
    }
}

proof fn lemma_trim_end(s: Seq<char>, c: char, i: int)
    requires
        0 <= i <= s.len(),
        forall|k: int| i <= k < s.len() ==> s[k] == c,
    ensures
        trim_end(s, c) == trim_end(s.subrange(0, i), c),
    decreases s.len() - i,
{
    if i < s.len() {
        assert(s.last() == c);
        lemma_trim_end(s.drop_last(), c, i);
        assert(s.drop_last().subrange(0, i) =~= s.subrange(0, i));
    } else {
        assert(s.subrange(0, i) =~= s);
    }
}

/// The text without leading `c`.
pub fn trim_start_text(s: &str, c: char) -> (r: String)
    ensures
        r@ == trim_start(s@, c),
{
    let chars: Vec<char> = chars_of(s);
    let mut from: usize = 0;
    while from < chars.len() && chars[from] == c
        invariant
            from <= chars.len(),
            forall|k: int| 0 <= k < from ==> chars@[k] == c,
        decreases chars.len() - from,
    {
        from = from + 1;
    }
    proof {
        lemma_trim_start(chars@, c, from as int);
    }
    string_of(&chars, from, chars.len())
}

/// The text without `c` at either end.
pub fn trim_text(s: &str, c: char) -> (r: String)
    ensures
        r@ == trimmed(s@, c),
{
    let chars: Vec<char> = chars_of(s);
    let mut from: usize = 0;
    while from < chars.len() && chars[from] == c
        invariant
            from <= chars.len(),
            forall|k: int| 0 <= k < from ==> chars@[k] == c,
        decreases chars.len() - from,
    {
        from = from + 1;
    }
    let ghost rest = chars@.subrange(from as int, chars@.len() as int);
    proof {
        lemma_trim_start(chars@, c, from as int);
    }
    let mut to: usize = chars.len();
    while to > from && chars[to - 1] == c
        invariant
            from <= to <= chars.len(),
            forall|k: int| to <= k < chars.len() ==> chars@[k] == c,
        decreases to,
    {
        to = to - 1;
    }
    proof {
        assert forall|k: int| to - from <= k < rest.len() implies rest[k] == c by {
            assert(rest[k] == chars@[from + k]);
        }
        lemma_trim_end(rest, c, to - from);
        assert(rest.subrange(0, to - from) =~= chars@.subrange(from as int, to as int));
        if to > from {
            assert(chars@.subrange(from as int, to as int).last() == chars@[to - 1]);
        }
    }
    string_of(&chars, from, to)
}

/// The number of bytes of the text in UTF-8.
pub fn byte_len(s: &str) -> (r: usize)
    ensures
        r == encode_utf8(s@).len(),
{
    s.as_bytes().len()
}

/// The code of a character, with the ASCII capitals taken as small letters.
pub open spec fn ascii_lower(c: char) -> int {
    if 'A' <= c && c <= 'Z' {
        c as int + 32
    } else {
        c as int
    }
}

/// The texts are the same but for the case of ASCII letters.
pub open spec fn same_ignoring_case(a: Seq<char>, b: Seq<char>) -> bool {
    a.len() == b.len() && forall|i: int|
        0 <= i < a.len() ==> ascii_lower(#[trigger] a[i]) == ascii_lower(b[i])
}

fn lower_code(c: char) -> (r: u32)
    ensures
        r == ascii_lower(c),
{
    if 'A' <= c && c <= 'Z' {
        c as u32 + 32
    } else {
        c as u32
    }
}

/// Whether the characters of `a` from `from` up to `to` are those of `b`, but
/// for the case of ASCII letters.
pub fn equal_ignoring_case(a: &Vec<char>, from: usize, to: usize, b: &str) -> (r: bool)
    requires
        from <= to <= a.len(),
    ensures
        r == same_ignoring_case(a@.subrange(from as int, to as int), b@),
{
    let other: Vec<char> = chars_of(b);
    if to - from != other.len() {
        return false;
    }
    let ghost part = a@.subrange(from as int, to as int);
    let mut i: usize = 0;
    while i < other.len()
        invariant
            i <= other.len(),
            other@ == b@,
            from <= to <= a.len(),
            to - from == other.len(),
            part == a@.subrange(from as int, to as int),
            forall|k: int|
                0 <= k < i ==> ascii_lower(#[trigger] part[k]) == ascii_lower(other@[k]),
        decreases other.len() - i,
    {
        assert(part[i as int] == a@[from + i]);
        if lower_code(a[from + i]) != lower_code(other[i]) {
            return false;
        }
        i = i + 1;
    }
    true
}

/// The text begins with `head`.
pub open spec fn begins_with(s: Seq<char>, head: Seq<char>) -> bool {
    s.len() >= head.len() && s.subrange(0, head.len() as int) == head
}

/// Whether the text begins with `head`.
pub fn text_begins_with(s: &Vec<char>, head: &str) -> (r: bool)
    ensures
        r == begins_with(s@, head@),
{
    let needle: Vec<char> = chars_of(head);
    matches_at(s, 0, &needle)
}

/// The first place of a needle in a text, if it occurs.
pub open spec fn find_text(hay: Seq<char>, needle: Seq<char>) -> Option<int>
    decreases hay.len(),
{
    if occurs_at(needle, hay, 0) {
        Some(0)
    } else if hay.len() == 0 {
        None
    } else {
        match find_text(hay.subrange(1, hay.len() as int), needle) {
            Some(i) => Some(i + 1),
            None => None,
        }
    }
}

/// The text before the first needle, or all of it.
pub open spec fn before_text(s: Seq<char>, needle: Seq<char>) -> Seq<char> {
    match find_text(s, needle) {
        Some(i) => s.subrange(0, i),
        None => s,
    }
}

/// The text behind the first needle, if it occurs.
pub open spec fn after_text(s: Seq<char>, needle: Seq<char>) -> Option<Seq<char>> {
    match find_text(s, needle) {
        Some(i) => Some(s.subrange(i + needle.len(), s.len() as int)),
        None => None,
    }
}

fn place_of(hay: &Vec<char>, needle: &Vec<char>) -> (r: Option<usize>)
    ensures
        match r {
            Some(i) => find_text(hay@, needle@) == Some(i as int) && i + needle.len()
                <= hay.len(),
            None => find_text(hay@, needle@) is None,
        },
{
    let mut i: usize = 0;
    assert(hay@.subrange(0, hay@.len() as int) =~= hay@);
    loop
        invariant
            i <= hay.len(),
            find_text(hay@, needle@) == (match find_text(
                hay@.subrange(i as int, hay@.len() as int),
                needle@,
            ) {
                Some(k) => Some(k + i),
                None => None,
            }),
        decreases hay.len() - i,
    {
        let ghost rest = hay@.subrange(i as int, hay@.len() as int);
        proof {
            if i + needle@.len() <= hay@.len() {
                assert(rest.subrange(0, needle@.len() as int) =~= hay@.subrange(
                    i as int,
                    i + needle@.len(),
                ));
            }
            assert(occurs_at(needle@, rest, 0) == occurs_at(needle@, hay@, i as int));
        }
        if matches_at(hay, i, needle) {
            return Some(i);
        }
        if i == hay.len() {
            return None;
        }
        assert(rest.subrange(1, rest.len() as int) =~= hay@.subrange(i + 1, hay@.len() as int));
        i = i + 1;
    }
}

/// The text before the first needle, or all of it.
pub fn text_before(s: &str, needle: &str) -> (r: String)
    ensures
        r@ == before_text(s@, needle@),
{
    let hay: Vec<char> = chars_of(s);
    match place_of(&hay, &chars_of(needle)) {
        Some(i) => string_of(&hay, 0, i),
        None => s.to_owned(),
    }
}

/// The text behind the first needle, if it occurs.
pub fn text_after(s: &str, needle: &str) -> (r: Option<String>)
    ensures
        match after_text(s@, needle@) {
            Some(rest) => r matches Some(t) && t@ == rest,
            None => r is None,
        },
{
    let hay: Vec<char> = chars_of(s);
    let sought: Vec<char> = chars_of(needle);
    match place_of(&hay, &sought) {
        Some(i) => Some(string_of(&hay, i + sought.len(), hay.len())),
        None => None,
    }
}

/// The character is white space, in the sense of Unicode.
pub open spec fn is_space(c: char) -> bool {
    let code = c as int;
    ||| 0x09 <= code <= 0x0d
    ||| code == 0x20
    ||| code == 0x85
    ||| code == 0xa0
    ||| code == 0x1680
    ||| 0x2000 <= code <= 0x200a
    ||| code == 0x2028
    ||| code == 0x2029
    ||| code == 0x202f
    ||| code == 0x205f
    ||| code == 0x3000
}

fn space(c: char) -> (r: bool)
    ensures
        r == is_space(c),
{
    let code: u32 = c as u32;
    (0x09 <= code && code <= 0x0d) || code == 0x20 || code == 0x85 || code == 0xa0 || code == 0x1680
        || (0x2000 <= code && code <= 0x200a) || code == 0x2028 || code == 0x2029 || code == 0x202f
        || code == 0x205f || code == 0x3000
}

/// The text without leading white space.
pub open spec fn stripped_start(s: Seq<char>) -> Seq<char>
    decreases s.len(),
{
    if s.len() > 0 && is_space(s[0]) {
        stripped_start(s.subrange(1, s.len() as int))
    } else {
        s
    }
}

/// The text without trailing white space.
pub open spec fn stripped_end(s: Seq<char>) -> Seq<char>
    decreases s.len(),
{
    if s.len() > 0 && is_space(s.last()) {
        stripped_end(s.drop_last())
    } else {
        s
    }
}

/// The text without white space at either end.
pub open spec fn stripped(s: Seq<char>) -> Seq<char> {
    stripped_end(stripped_start(s))
}

/// The text without white space at either end.
pub fn strip_text(s: &str) -> (r: String)
    ensures
        r@ == stripped(s@),
{
    let chars: Vec<char> = chars_of(s);
    let n: usize = chars.len();
    let mut from: usize = 0;
    assert(chars@.subrange(0, n as int) =~= chars@);
    while from < n && space(chars[from])
        invariant
            from <= n,
            n == chars.len(),
            stripped_start(chars@) == stripped_start(chars@.subrange(from as int, n as int)),
        decreases n - from,
    {
        proof {
            let rest = chars@.subrange(from as int, n as int);
            assert(rest[0] == chars@[from as int]);
            assert(rest.subrange(1, rest.len() as int) =~= chars@.subrange(from + 1, n as int));
        }
        from = from + 1;
    }
    proof {
        let rest = chars@.subrange(from as int, n as int);
        if from < n {
            assert(rest[0] == chars@[from as int]);
        }
        assert(stripped_start(chars@) == rest);
    }
    let mut to: usize = n;
    while to > from && space(chars[to - 1])
        invariant
            from <= to <= n,
            n == chars.len(),
            stripped(chars@) == stripped_end(chars@.subrange(from as int, to as int)),
        decreases to,
    {
        proof {
            let part = chars@.subrange(from as int, to as int);
            assert(part.last() == chars@[to - 1]);
            assert(part.drop_last() =~= chars@.subrange(from as int, to - 1));
        }
        to = to - 1;
    }
    proof {
        let part = chars@.subrange(from as int, to as int);
        if to > from {
            assert(part.last() == chars@[to - 1]);
        }
    }
    string_of(&chars, from, to)
}

/// The decimal notation of a wide number.
pub fn wide_decimal_of(n: u128) -> (r: String)
    ensures
        r@ == decimal(n as nat),
    decreases n,
{
    if n < 10 {
        decimal_of(n as u64)
    } else {
        let last: String = decimal_of((n % 10) as u64);
        let r: String = wide_decimal_of(n / 10).concat(last.as_str());
        assert(r@ =~= decimal(n as nat));
        r
    }
}

} // verus!
