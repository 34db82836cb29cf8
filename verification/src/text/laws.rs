//! What holds of texts, character by character.

use vstd::prelude::*;
use vstd::utf8::encode_utf8;

use crate::text::{
    after_text, ascii_lower, before_text, bytes_below, decimal, decimal_of, digit, find_text,
    first_at, is_space, last_at, occurs_at, same_ignoring_case, split, str_less, stripped,
    stripped_end, stripped_start, trim_start, wide_decimal_of,
};

verus! {

/// The number that decimal digits denote, read from the left.
pub open spec fn denoted(digits: Seq<char>) -> int {
    digits.fold_left(0int, |n: int, c: char| n * 10 + (c as int - '0' as int))
}

/// Decimal notation denotes its number, is made of digits alone, and has no
/// needless zero in front.
pub proof fn law_decimal_notation_denotes_the_number(n: nat)
    ensures
        decimal(n).fold_left(0int, |m: int, c: char| m * 10 + (c as int - '0' as int)) == n,
        decimal(n).len() > 0,
        forall|i: int| 0 <= i < decimal(n).len() ==> '0' <= #[trigger] decimal(n)[i] <= '9',
        n > 0 ==> decimal(n)[0] != '0',
    decreases n,
{
    let f = |m: int, c: char| m * 10 + (c as int - '0' as int);
    assert(digit(n % 10) as int == '0' as int + n % 10);
    reveal_with_fuel(Seq::fold_left, 3);
    if n >= 10 {
        law_decimal_notation_denotes_the_number(n / 10);
        assert(decimal(n).drop_last() =~= decimal(n / 10));
        assert(decimal(n).last() == digit(n % 10));
        assert(decimal(n)[0] == decimal(n / 10)[0]);
    } else {
        assert(decimal(n) =~= seq![digit(n)]);
        assert(decimal(n).drop_last() =~= Seq::empty());
        assert(digit(n) as int == '0' as int + n);
    }
}

/// What the number functions write is the decimal notation of their number.
pub proof fn law_written_numbers_denote(n: u64, r: String, m: u128, w: String)
    requires
        call_ensures(decimal_of, (n,), r),
        call_ensures(wide_decimal_of, (m,), w),
    ensures
        r@.fold_left(0int, |m: int, c: char| m * 10 + (c as int - '0' as int)) == n,
        w@.fold_left(0int, |m: int, c: char| m * 10 + (c as int - '0' as int)) == m,
        forall|i: int| 0 <= i < r@.len() ==> '0' <= #[trigger] r@[i] <= '9',
        forall|i: int| 0 <= i < w@.len() ==> '0' <= #[trigger] w@[i] <= '9',
        n > 0 ==> r@[0] != '0',
        m > 0 ==> w@[0] != '0',
{
    law_decimal_notation_denotes_the_number(n as nat);
    law_decimal_notation_denotes_the_number(m as nat);
}

/// The place that is called the first is the first: the character stands there
/// and nowhere before; where it is the length, the character does not occur.
pub proof fn law_the_first_place_is_the_first(s: Seq<char>, c: char)
    ensures
        0 <= first_at(s, c) <= s.len(),
        first_at(s, c) < s.len() <==> s.contains(c),
        first_at(s, c) < s.len() ==> s[first_at(s, c)] == c,
        forall|k: int| 0 <= k < first_at(s, c) ==> s[k] != c,
    decreases s.len(),
{
    if s.len() > 0 && s[0] != c {
        let tail = s.subrange(1, s.len() as int);
        law_the_first_place_is_the_first(tail, c);
        assert forall|k: int| 0 <= k < first_at(s, c) implies s[k] != c by {
            if k > 0 {
                assert(tail[k - 1] == s[k]);
            }
        }
        if first_at(tail, c) < tail.len() {
            assert(s[first_at(s, c)] == c);
        }
    }
    if s.contains(c) && first_at(s, c) == s.len() {
        let k = choose|k: int| 0 <= k < s.len() && s[k] == c;
        assert(s[k] != c);
    }
}

/// The place that is called the last is the last.
pub proof fn law_the_last_place_is_the_last(s: Seq<char>, c: char)
    ensures
        -1 <= last_at(s, c) < s.len(),
        last_at(s, c) >= 0 <==> s.contains(c),
        last_at(s, c) >= 0 ==> s[last_at(s, c)] == c,
        forall|k: int| last_at(s, c) < k < s.len() ==> s[k] != c,
    decreases s.len(),
{
    if s.len() > 0 && s.last() != c {
        law_the_last_place_is_the_last(s.drop_last(), c);
        assert forall|k: int| last_at(s, c) < k < s.len() implies s[k] != c by {
            if k < s.len() - 1 {
                assert(s.drop_last()[k] == s[k]);
            }
        }
    }
    if s.contains(c) && last_at(s, c) < 0 {
        let k = choose|k: int| 0 <= k < s.len() && s[k] == c;
        assert(s[k] != c);
    }
}

/// The pieces of a split, written with the separator between them, are the
/// text; no piece holds the separator.
pub proof fn law_split_pieces_make_the_text(s: Seq<char>, c: char)
    ensures
        split(s, c).len() >= 1,
        forall|i: int|
            0 <= i < split(s, c).len() ==> !(#[trigger] split(s, c)[i]).contains(c),
        s == split(s, c).drop_last().map_values(|p: Seq<char>| p.push(c)).flatten() + split(
            s,
            c,
        ).last(),
    decreases s.len(),
{
    let parts = split(s, c);
    if s.len() == 0 {
        assert(parts.drop_last().map_values(|p: Seq<char>| p.push(c)) =~= Seq::<Seq<char>>::empty());
        assert(s =~= parts.drop_last().map_values(|p: Seq<char>| p.push(c)).flatten()
            + parts.last());
    } else {
        let before = split(s.drop_last(), c);
        law_split_pieces_make_the_text(s.drop_last(), c);
        let ended = before.drop_last().map_values(|p: Seq<char>| p.push(c));
        if s.last() == c {
            assert(parts.drop_last() =~= before);
            let now = before.map_values(|p: Seq<char>| p.push(c));
            assert(now.drop_last() =~= ended);
            assert(now.last() == before.last().push(c));
            now.lemma_flatten_and_flatten_alt_are_equivalent();
            ended.lemma_flatten_and_flatten_alt_are_equivalent();
            assert(s.drop_last() == ended.flatten() + before.last());
            assert(now.flatten() == ended.flatten() + before.last().push(c));
            assert(s =~= s.drop_last().push(c));
            assert(s =~= now.flatten() + parts.last());
            assert forall|i: int| 0 <= i < parts.len() implies !(#[trigger] parts[i]).contains(
                c,
            ) by {
                if i < before.len() {
                    assert(parts[i] == before[i]);
                }
            }
        } else {
            assert(parts.drop_last() =~= before.drop_last());
            assert(s.drop_last() == ended.flatten() + before.last());
            assert(parts.last() == before.last().push(s.last()));
            assert(s =~= s.drop_last().push(s.last()));
            assert(s =~= ended.flatten() + parts.last());
            assert forall|i: int| 0 <= i < parts.len() implies !(#[trigger] parts[i]).contains(
                c,
            ) by {
                if i < before.len() - 1 {
                    assert(parts[i] == before[i]);
                } else {
                    let p = before.last();
                    assert(!before[before.len() - 1].contains(c));
                    if parts[i].contains(c) {
                        let k = choose|k: int| 0 <= k < parts[i].len() && parts[i][k] == c;
                        assert(k < p.len());
                        assert(p[k] == c);
                        assert(p.contains(c));
                    }
                }
            }
        }
    }
}

/// Comparing without case tells ASCII letters apart by letter only, and
/// everything else exactly.
pub proof fn law_only_the_case_of_letters_is_ignored(a: Seq<char>, b: Seq<char>)
    ensures
        same_ignoring_case(a, b) <==> a.len() == b.len() && forall|i: int|
            0 <= i < a.len() ==> (#[trigger] a[i] == b[i] || ('A' <= a[i] <= 'Z' && b[i] as int
                == a[i] as int + 32) || ('A' <= b[i] <= 'Z' && a[i] as int == b[i] as int + 32)),
{
    if same_ignoring_case(a, b) {
        assert forall|i: int| 0 <= i < a.len() implies (#[trigger] a[i] == b[i] || ('A' <= a[i]
            <= 'Z' && b[i] as int == a[i] as int + 32) || ('A' <= b[i] <= 'Z' && a[i] as int
            == b[i] as int + 32)) by {
            assert(ascii_lower(a[i]) == ascii_lower(b[i]));
        }
    }
}

/// A text before a needle and the text behind it are what stands on either side
/// of the first occurrence.
pub proof fn law_a_needle_divides_the_text(s: Seq<char>, needle: Seq<char>)
    ensures
        after_text(s, needle) is Some <==> exists|i: int|
            0 <= i && i + needle.len() <= s.len() && #[trigger] s.subrange(i, i + needle.len())
                == needle,
        after_text(s, needle) matches Some(rest) ==> s == before_text(s, needle) + needle + rest
            && forall|i: int|
            0 <= i < before_text(s, needle).len() ==> #[trigger] s.subrange(i, i + needle.len())
                != needle,
        after_text(s, needle) is None ==> before_text(s, needle) == s,
{
    lemma_find_text(s, needle);
    if let Some(i) = find_text(s, needle) {
        assert(occurs_at(needle, s, i));
        assert(s =~= before_text(s, needle) + needle + after_text(s, needle)->0);
        assert(s.subrange(i, i + needle.len()) == needle);
        assert forall|k: int| 0 <= k < before_text(s, needle).len() implies #[trigger] s.subrange(
            k,
            k + needle.len(),
        ) != needle by {
            assert(!occurs_at(needle, s, k));
        }
    } else {
        assert forall|i: int|
            0 <= i && i + needle.len() <= s.len() implies #[trigger] s.subrange(
            i,
            i + needle.len(),
        ) != needle by {
            assert(!occurs_at(needle, s, i));
        }
    }
}

/// The place of the first occurrence.
pub proof fn lemma_find_text(s: Seq<char>, needle: Seq<char>)
    ensures
        match find_text(s, needle) {
            Some(i) => occurs_at(needle, s, i) && forall|k: int|
                0 <= k < i ==> !#[trigger] occurs_at(needle, s, k),
            None => forall|k: int| !#[trigger] occurs_at(needle, s, k),
        },
    decreases s.len(),
{
    if !occurs_at(needle, s, 0) && s.len() > 0 {
        let tail = s.subrange(1, s.len() as int);
        lemma_find_text(tail, needle);
        assert forall|k: int| k > 0 implies #[trigger] occurs_at(needle, s, k) == occurs_at(
            needle,
            tail,
            k - 1,
        ) by {
            if k + needle.len() <= s.len() {
                assert(tail.subrange(k - 1, k - 1 + needle.len()) =~= s.subrange(
                    k,
                    k + needle.len(),
                ));
            }
        }
        if let Some(i) = find_text(tail, needle) {
            assert(occurs_at(needle, s, i + 1));
            assert forall|k: int| 0 <= k < i + 1 implies !#[trigger] occurs_at(needle, s, k) by {
                if k > 0 {
                    assert(!occurs_at(needle, tail, k - 1));
                }
            }
        } else {
            assert forall|k: int| !#[trigger] occurs_at(needle, s, k) by {
                if k > 0 {
                    assert(!occurs_at(needle, tail, k - 1));
                }
            }
        }
    }
}

/// Stripping takes white space from both ends and nothing else: what is taken
/// is white space, and what is left neither begins nor ends with it. A printable
/// ASCII character is never white space; the blank, the tab and the line ends
/// are.
pub proof fn law_stripping_takes_white_space_only(s: Seq<char>)
    ensures
        exists|i: int, j: int|
            0 <= i <= j <= s.len() && stripped(s) == #[trigger] s.subrange(i, j) && (forall|k: int|
                0 <= k < i || j <= k < s.len() ==> is_space(#[trigger] s[k])),
        stripped(s).len() > 0 ==> !is_space(stripped(s)[0]) && !is_space(stripped(s).last()),
        forall|c: char| 0x21 <= c as int <= 0x7e ==> !#[trigger] is_space(c),
        is_space(' ') && is_space('\t') && is_space('\n') && is_space('\r'),
{
    lemma_stripped_start(s);
    let t = stripped_start(s);
    let i = choose|i: int|
        0 <= i <= s.len() && t == #[trigger] s.subrange(i, s.len() as int) && (forall|k: int|
            0 <= k < i ==> is_space(#[trigger] s[k]));
    lemma_stripped_end(t);
    let j = choose|j: int|
        0 <= j <= t.len() && stripped_end(t) == #[trigger] t.subrange(0, j) && (forall|k: int|
            j <= k < t.len() ==> is_space(#[trigger] t[k]));
    assert(stripped(s) =~= s.subrange(i, i + j));
    assert forall|k: int| 0 <= k < i || i + j <= k < s.len() implies is_space(
        #[trigger] s[k],
    ) by {
        if k >= i + j {
            assert(t[k - i] == s[k]);
        }
    }
    if stripped(s).len() > 0 {
        assert(stripped(s)[0] == t[0]);
    }
}

proof fn lemma_stripped_start(s: Seq<char>)
    ensures
        exists|i: int|
            0 <= i <= s.len() && stripped_start(s) == #[trigger] s.subrange(i, s.len() as int) && (
            forall|k: int| 0 <= k < i ==> is_space(#[trigger] s[k])),
        stripped_start(s).len() > 0 ==> !is_space(stripped_start(s)[0]),
    decreases s.len(),
{
    if s.len() > 0 && is_space(s[0]) {
        let tail = s.subrange(1, s.len() as int);
        lemma_stripped_start(tail);
        let i = choose|i: int|
            0 <= i <= tail.len() && stripped_start(tail) == #[trigger] tail.subrange(
                i,
                tail.len() as int,
            ) && (forall|k: int| 0 <= k < i ==> is_space(#[trigger] tail[k]));
        assert(stripped_start(s) =~= s.subrange(i + 1, s.len() as int));
        assert forall|k: int| 0 <= k < i + 1 implies is_space(#[trigger] s[k]) by {
            if k > 0 {
                assert(tail[k - 1] == s[k]);
            }
        }
    } else {
        assert(stripped_start(s) =~= s.subrange(0, s.len() as int));
    }
}

proof fn lemma_stripped_end(s: Seq<char>)
    ensures
        exists|j: int|
            0 <= j <= s.len() && stripped_end(s) == #[trigger] s.subrange(0, j) && (forall|k: int|
                j <= k < s.len() ==> is_space(#[trigger] s[k])),
        stripped_end(s).len() > 0 ==> !is_space(stripped_end(s).last()),
    decreases s.len(),
{
    if s.len() > 0 && is_space(s.last()) {
        let front = s.drop_last();
        lemma_stripped_end(front);
        let j = choose|j: int|
            0 <= j <= front.len() && stripped_end(front) == #[trigger] front.subrange(0, j) && (
            forall|k: int| j <= k < front.len() ==> is_space(#[trigger] front[k]));
        assert(stripped_end(s) =~= s.subrange(0, j));
        assert forall|k: int| j <= k < s.len() implies is_space(#[trigger] s[k]) by {
            if k < front.len() {
                assert(front[k] == s[k]);
            }
        }
    } else {
        assert(stripped_end(s) =~= s.subrange(0, s.len() as int));
    }
}

/// Trimming a leading character takes all of it and nothing else.
pub proof fn law_trimming_takes_the_leading_character_only(s: Seq<char>, c: char)
    ensures
        exists|i: int|
            0 <= i <= s.len() && trim_start(s, c) == #[trigger] s.subrange(i, s.len() as int) && (
            forall|k: int| 0 <= k < i ==> #[trigger] s[k] == c),
        trim_start(s, c).len() > 0 ==> trim_start(s, c)[0] != c,
    decreases s.len(),
{
    if s.len() > 0 && s[0] == c {
        let tail = s.subrange(1, s.len() as int);
        law_trimming_takes_the_leading_character_only(tail, c);
        let i = choose|i: int|
            0 <= i <= tail.len() && trim_start(tail, c) == #[trigger] tail.subrange(
                i,
                tail.len() as int,
            ) && (forall|k: int| 0 <= k < i ==> #[trigger] tail[k] == c);
        assert(trim_start(s, c) =~= s.subrange(i + 1, s.len() as int));
        assert forall|k: int| 0 <= k < i + 1 implies #[trigger] s[k] == c by {
            if k > 0 {
                assert(tail[k - 1] == s[k]);
            }
        }
    } else {
        assert(trim_start(s, c) =~= s.subrange(0, s.len() as int));
    }
}

/// Texts are ordered by their bytes: where the bytes first differ the smaller
/// one decides, and a text comes before what continues it.
pub proof fn law_texts_are_ordered_by_their_bytes(a: &str, b: &str, r: bool, i: int)
    requires
        call_ensures(str_less, (a, b), r),
        0 <= i,
        i <= encode_utf8(a@).len(),
        i <= encode_utf8(b@).len(),
        encode_utf8(a@).subrange(0, i) == encode_utf8(b@).subrange(0, i),
    ensures
        i < encode_utf8(a@).len() && i < encode_utf8(b@).len() && encode_utf8(a@)[i]
            != encode_utf8(b@)[i] ==> r == (encode_utf8(a@)[i] < encode_utf8(b@)[i]),
        i == encode_utf8(a@).len() && i < encode_utf8(b@).len() ==> r,
        i == encode_utf8(b@).len() ==> !r,
{
    lemma_below_at(encode_utf8(a@), encode_utf8(b@), i);
}

proof fn lemma_below_at(a: Seq<u8>, b: Seq<u8>, i: int)
    requires
        0 <= i <= a.len(),
        i <= b.len(),
        a.subrange(0, i) == b.subrange(0, i),
    ensures
        bytes_below(a, b) == (i < b.len() && (i == a.len() || a[i] < b[i] || (a[i] == b[i]
            && bytes_below(a.subrange(i, a.len() as int), b.subrange(i, b.len() as int))))),
    decreases i,
{
    if i > 0 {
        let x = a.subrange(1, a.len() as int);
        let y = b.subrange(1, b.len() as int);
        assert(a.subrange(0, i)[0] == a[0] && b.subrange(0, i)[0] == b[0]);
        assert forall|k: int| 0 <= k < i - 1 implies #[trigger] x[k] == y[k] by {
            assert(a.subrange(0, i)[k + 1] == a[k + 1] && b.subrange(0, i)[k + 1] == b[k + 1]);
        }
        assert(x.subrange(0, i - 1) =~= y.subrange(0, i - 1));
        lemma_below_at(x, y, i - 1);
        assert(x.subrange(i - 1, x.len() as int) =~= a.subrange(i, a.len() as int));
        assert(y.subrange(i - 1, y.len() as int) =~= b.subrange(i, b.len() as int));
    } else {
        assert(a.subrange(0, a.len() as int) =~= a);
        assert(b.subrange(0, b.len() as int) =~= b);
    }
}

} // verus!
