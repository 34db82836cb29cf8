//! Byte strings: hexadecimal text, content digests, and fields of a payload.

use vstd::bytes::{spec_u64_to_le_bytes, u64_to_le_bytes};
use vstd::prelude::*;
use vstd::slice::*;
use vstd::string::*;
use vstd::utf8::encode_utf8;

use crate::text::bytes_equal;

verus! {

/// The BLAKE3 digest of some bytes.
pub uninterp spec fn fingerprint(data: Seq<u8>) -> Seq<u8>;

/// The bytes of `agent_mesh_protocol::Fingerprint::of_bytes`: the BLAKE3 digest
/// of the data, a function of the data alone.
#[verifier::external_body]
pub(crate) fn digest_of(data: &[u8]) -> (r: [u8; 32])
    ensures
        r@ == fingerprint(data@),
{
    agent_mesh_protocol::Fingerprint::of_bytes(data).0
}

/// A digest of thirty-two bytes, by which content and keys are known.
#[derive(Debug, Clone, Copy, PartialEq, Eq)]
pub struct Fingerprint(pub [u8; 32]);

impl View for Fingerprint {
    type V = Seq<u8>;

    open spec fn view(&self) -> Seq<u8> {
        self.0@
    }
}

impl Fingerprint {
    /// The BLAKE3 digest of some bytes.
    pub fn of_bytes(data: &[u8]) -> (r: Self)
        ensures
            r@ == fingerprint(data@),
    {
        Fingerprint(digest_of(data))
    }

    /// Whether both hold the same bytes.
    pub fn same(&self, other: &Self) -> (r: bool)
        ensures
            r == (self@ == other@),
    {
        bytes_equal(self.0.as_slice(), other.0.as_slice())
    }
}

/// The lower-case hexadecimal digit with the value `n`.
pub open spec fn hex_digit(n: int) -> char {
    if n < 10 {
        (('0' as int) + n) as char
    } else {
        (('a' as int) + n - 10) as char
    }
}

/// The bytes in lower-case hexadecimal, two digits each.
pub open spec fn hex_of(bytes: Seq<u8>) -> Seq<char> {
    Seq::new(
        2 * bytes.len(),
        |i: int| hex_digit(if i % 2 == 0 {
            bytes[i / 2] as int / 16
        } else {
            bytes[i / 2] as int % 16
        }),
    )
}

/// The character is a digit of lower-case hexadecimal.
pub open spec fn is_lower_hex(c: char) -> bool {
    '0' <= c <= '9' || 'a' <= c <= 'f'
}

/// Bytes in hexadecimal are made of lower-case digits alone.
pub proof fn lemma_hex_digits(bytes: Seq<u8>)
    ensures
        forall|i: int| 0 <= i < hex_of(bytes).len() ==> is_lower_hex(#[trigger] hex_of(bytes)[i]),
{
    assert forall|i: int| 0 <= i < hex_of(bytes).len() implies is_lower_hex(
        #[trigger] hex_of(bytes)[i],
    ) by {
        let b = bytes[i / 2] as int;
        assert(0 <= b / 16 < 16 && 0 <= b % 16 < 16);
    }
}

fn hex_char(n: u8) -> (r: char)
    requires
        n < 16,
    ensures
        r == hex_digit(n as int),
{
    match n {
        0 => '0',
        1 => '1',
        2 => '2',
        3 => '3',
        4 => '4',
        5 => '5',
        6 => '6',
        7 => '7',
        8 => '8',
        9 => '9',
        10 => 'a',
        11 => 'b',
        12 => 'c',
        13 => 'd',
        14 => 'e',
        _ => 'f',
    }
}

/// The bytes in lower-case hexadecimal.
pub fn hex_encode(bytes: &[u8]) -> (r: String)
    ensures
        r@ == hex_of(bytes@),
{
    let mut r: String = String::new();
    let mut i: usize = 0;
    assert(r@ =~= hex_of(bytes@.take(0)));
    while i < bytes.len()
        invariant
            i <= bytes.len(),
            r@ == hex_of(bytes@.take(i as int)),
        decreases bytes.len() - i,
    {
        let b: u8 = bytes[i];
        let ghost before = r@;
        r.push(hex_char(b / 16));
        r.push(hex_char(b % 16));
        proof {
            let shorter = bytes@.take(i as int);
            let longer = bytes@.take(i + 1);
            assert(longer =~= shorter.push(b));
            assert forall|k: int| 0 <= k < hex_of(longer).len() implies r@[k] == #[trigger] hex_of(
                longer,
            )[k] by {
                if k < 2 * i {
                    assert(r@[k] == before[k]);
                    assert(before[k] == hex_of(shorter)[k]);
                    assert(longer[k / 2] == shorter[k / 2]);
                } else {
                    assert(k / 2 == i);
                    assert(longer[k / 2] == b);
                }
            }
            assert(r@ =~= hex_of(longer));
        }
        i = i + 1;
    }
    assert(bytes@.take(i as int) =~= bytes@);
    r
}

/// The value of a hexadecimal digit in ASCII.
pub open spec fn hex_value(b: u8) -> Option<int> {
    if 48 <= b <= 57 {
        Some(b - 48)
    } else if 97 <= b <= 102 {
        Some(b - 87)
    } else if 65 <= b <= 70 {
        Some(b - 55)
    } else {
        None
    }
}

/// The value of a pair of hexadecimal digits.
pub open spec fn pair_value(first: u8, second: u8) -> Option<int> {
    match (hex_value(first), hex_value(second)) {
        (Some(a), Some(b)) => Some(a * 16 + b),
        _ => None,
    }
}

/// The value of the pair with the number `i`.
pub open spec fn pair_at(text: Seq<u8>, i: int) -> Option<int> {
    pair_value(text[2 * i], text[2 * i + 1])
}

/// The bytes that a hexadecimal text stands for, or why it stands for none.
pub open spec fn hex_decoded(text: Seq<u8>) -> Result<Seq<u8>, Seq<char>> {
    if text.len() % 2 != 0 {
        Err("hex string has odd length"@)
    } else if exists|i: int| 0 <= i < text.len() / 2 && (#[trigger] pair_at(text, i)) is None {
        Err("invalid digit found in string"@)
    } else {
        Ok(Seq::new((text.len() / 2) as nat, |i: int| pair_at(text, i)->0 as u8))
    }
}

fn nibble(b: u8) -> (r: Option<u8>)
    ensures
        match hex_value(b) {
            Some(v) => r matches Some(n) && n == v && n < 16,
            None => r is None,
        },
{
    if 48 <= b && b <= 57 {
        Some(b - 48)
    } else if 97 <= b && b <= 102 {
        Some(b - 87)
    } else if 65 <= b && b <= 70 {
        Some(b - 55)
    } else {
        None
    }
}

fn pair(first: u8, second: u8) -> (r: Option<u8>)
    ensures
        match pair_value(first, second) {
            Some(v) => r matches Some(n) && n == v,
            None => r is None,
        },
{
    match (nibble(first), nibble(second)) {
        (Some(a), Some(b)) => Some(a * 16 + b),
        _ => None,
    }
}

/// The bytes that a hexadecimal text stands for, in either case.
pub fn hex_decode(text: &str) -> (r: Result<Vec<u8>, String>)
    ensures
        match hex_decoded(encode_utf8(text@)) {
            Ok(bytes) => r matches Ok(v) && v@ == bytes,
            Err(reason) => r is Err && r->Err_0@ == reason,
        },
{
    let bytes: &[u8] = text.as_bytes();
    if bytes.len() % 2 != 0 {
        return Err("hex string has odd length".to_owned());
    }
    let mut r: Vec<u8> = Vec::new();
    let mut i: usize = 0;
    while i < bytes.len() / 2
        invariant
            i <= bytes.len() / 2,
            bytes.len() % 2 == 0,
            bytes@ == encode_utf8(text@),
            r@.len() == i,
            forall|k: int|
                0 <= k < i ==> #[trigger] pair_at(bytes@, k) == Some(r@[k] as int),
        decreases bytes.len() / 2 - i,
    {
        match pair(bytes[2 * i], bytes[2 * i + 1]) {
            None => {
                assert(pair_at(bytes@, i as int) is None);
                return Err("invalid digit found in string".to_owned());
            },
            Some(v) => {
                assert(pair_at(bytes@, i as int) == Some(v as int));
                r.push(v);
            },
        }
        i = i + 1;
    }
    proof {
        let expected = Seq::new((bytes@.len() / 2) as nat, |k: int| pair_at(bytes@, k)->0 as u8);
        assert forall|k: int| 0 <= k < expected.len() implies r@[k] == expected[k] by {
            assert(pair_at(bytes@, k) == Some(r@[k] as int));
        }
        assert(r@ =~= expected);
    }
    Ok(r)
}

/// What `hex_encode` writes, `hex_decode` reads back.
pub proof fn law_hex_reads_back(bytes: Seq<u8>)
    ensures
        hex_decoded(encode_utf8(hex_of(bytes))) == Ok::<Seq<u8>, Seq<char>>(bytes),
{
    let text = hex_of(bytes);
    assert forall|i: int| 0 <= i < text.len() implies (#[trigger] text[i] as int) < 0x80 by {
        let b = bytes[i / 2];
        assert(0 <= b as int / 16 < 16 && 0 <= b as int % 16 < 16);
    }
    lemma_ascii_bytes(text);
    let raw = encode_utf8(text);
    assert forall|i: int| 0 <= i < bytes.len() implies #[trigger] pair_at(raw, i) == Some(
        bytes[i] as int,
    ) by {
        let b = bytes[i] as int;
        assert(0 <= b / 16 < 16 && 0 <= b % 16 < 16);
        assert((2 * i) % 2 == 0 && (2 * i + 1) % 2 == 1);
        assert((2 * i) / 2 == i && (2 * i + 1) / 2 == i);
        assert(text[2 * i] == hex_digit(b / 16));
        assert(text[2 * i + 1] == hex_digit(b % 16));
        assert(raw[2 * i] as int == text[2 * i] as int);
        assert(raw[2 * i + 1] as int == text[2 * i + 1] as int);
        assert(hex_value(raw[2 * i]) == Some(b / 16));
        assert(hex_value(raw[2 * i + 1]) == Some(b % 16));
    }
    assert(hex_decoded(raw)->Ok_0 =~= bytes);
}

proof fn lemma_char_code(c: char)
    ensures
        (c as u32) as int == c as int,
{
}

/// A text of ASCII characters is encoded byte for character.
pub proof fn lemma_ascii_bytes(text: Seq<char>)
    requires
        forall|i: int| 0 <= i < text.len() ==> (#[trigger] text[i] as int) < 0x80,
    ensures
        encode_utf8(text).len() == text.len(),
        forall|i: int|
            0 <= i < text.len() ==> #[trigger] encode_utf8(text)[i] as int == text[i] as int,
    decreases text.len(),
{
    if text.len() > 0 {
        let rest = text.drop_first();
        assert forall|i: int| 0 <= i < rest.len() implies (#[trigger] rest[i] as int) < 0x80 by {
            assert(rest[i] == text[i + 1]);
        }
        lemma_ascii_bytes(rest);
        lemma_char_code(text[0]);
        let c = text[0] as u32;
        assert(c < 0x80 ==> (c & 0x7f) as u8 == c) by (bit_vector);
        assert(encode_utf8(text) =~= vstd::utf8::encode_scalar(c) + encode_utf8(rest));
        assert forall|i: int| 0 <= i < text.len() implies #[trigger] encode_utf8(text)[i] as int
            == text[i] as int by {
            if i > 0 {
                assert(encode_utf8(rest)[i - 1] as int == rest[i - 1] as int);
            }
        }
    }
}

/// Leading ASCII characters of a text are encoded byte for character.
pub proof fn lemma_ascii_head(text: Seq<char>, n: int)
    requires
        0 <= n <= text.len(),
        forall|i: int| 0 <= i < n ==> (#[trigger] text[i] as int) < 0x80,
    ensures
        encode_utf8(text).len() >= n,
        forall|i: int| 0 <= i < n ==> #[trigger] encode_utf8(text)[i] as int == text[i] as int,
    decreases n,
{
    if n > 0 {
        let rest = text.drop_first();
        assert forall|i: int| 0 <= i < n - 1 implies (#[trigger] rest[i] as int) < 0x80 by {
            assert(rest[i] == text[i + 1]);
        }
        lemma_ascii_head(rest, n - 1);
        lemma_char_code(text[0]);
        let c = text[0] as u32;
        assert(c < 0x80 ==> (c & 0x7f) as u8 == c) by (bit_vector);
        assert(encode_utf8(text) =~= vstd::utf8::encode_scalar(c) + encode_utf8(rest));
        assert forall|i: int| 0 <= i < n implies #[trigger] encode_utf8(text)[i] as int
            == text[i] as int by {
            if i > 0 {
                assert(encode_utf8(rest)[i - 1] as int == rest[i - 1] as int);
            }
        }
    }
}

/// Appends some bytes.
pub fn push_bytes(buf: &mut Vec<u8>, data: &[u8])
    ensures
        final(buf)@ == old(buf)@ + data@,
{
    let ghost before = buf@;
    let mut i: usize = 0;
    while i < data.len()
        invariant
            i <= data.len(),
            buf@ == before + data@.take(i as int),
        decreases data.len() - i,
    {
        buf.push(data[i]);
        assert(buf@ =~= before + data@.take(i + 1));
        i = i + 1;
    }
    assert(data@.take(i as int) =~= data@);
}

/// A field of a payload: its length in eight bytes, the lowest first, and then
/// the bytes of the field.
pub open spec fn field(data: Seq<u8>) -> Seq<u8> {
    spec_u64_to_le_bytes(data.len() as u64) + data
}

/// Appends a field to a payload.
pub fn push_field(buf: &mut Vec<u8>, data: &[u8])
    ensures
        final(buf)@ == old(buf)@ + field(data@),
{
    let ghost before = buf@;
    let length: Vec<u8> = u64_to_le_bytes(data.len() as u64);
    push_bytes(buf, length.as_slice());
    push_bytes(buf, data);
    assert(buf@ =~= before + field(data@));
}

/// Eight bytes stand for one number.
pub proof fn lemma_number_bytes(a: u64, b: u64)
    ensures
        spec_u64_to_le_bytes(a).len() == 8,
        spec_u64_to_le_bytes(a) == spec_u64_to_le_bytes(b) ==> a == b,
{
    vstd::bytes::lemma_auto_spec_u64_to_from_le_bytes();
}

/// No value moves the boundary of a field: two payloads that begin with a field
/// and are the same begin with the same field and go on in the same way.
pub proof fn law_a_field_ends_where_it_says(
    a: Seq<u8>,
    b: Seq<u8>,
    after_a: Seq<u8>,
    after_b: Seq<u8>,
)
    requires
        a.len() <= u64::MAX,
        b.len() <= u64::MAX,
        field(a) + after_a == field(b) + after_b,
    ensures
        a == b,
        after_a == after_b,
{
    let whole = field(a) + after_a;
    lemma_number_bytes(a.len() as u64, b.len() as u64);
    lemma_number_bytes(b.len() as u64, a.len() as u64);
    assert(whole.subrange(0, 8) =~= spec_u64_to_le_bytes(a.len() as u64));
    assert((field(b) + after_b).subrange(0, 8) =~= spec_u64_to_le_bytes(b.len() as u64));
    assert(a.len() == b.len());
    let end = 8 + a.len() as int;
    assert(whole.subrange(8, end) =~= a);
    assert((field(b) + after_b).subrange(8, end) =~= b);
    assert(whole.subrange(end, whole.len() as int) =~= after_a);
    assert((field(b) + after_b).subrange(end, whole.len() as int) =~= after_b);
}

/// A hexadecimal text is read exactly where it has an even number of characters,
/// each a decimal digit or a letter from a to f in either case; each byte is
/// sixteen times the value of its first digit and the value of its second.
pub proof fn law_hexadecimal_is_read_by_its_digits(text: &str, r: Result<Vec<u8>, String>)
    requires
        call_ensures(hex_decode, (text,), r),
    ensures
        ({
            let t = encode_utf8(text@);
            let digit = |b: u8| 48 <= b <= 57 || 97 <= b <= 102 || 65 <= b <= 70;
            &&& r is Ok <==> t.len() % 2 == 0 && forall|i: int|
                0 <= i < t.len() ==> digit(#[trigger] t[i])
            &&& r is Ok ==> r->Ok_0@.len() * 2 == t.len() && forall|i: int|
                0 <= i < r->Ok_0@.len() ==> #[trigger] r->Ok_0@[i] == 16 * digit_value(t[2 * i])
                    + digit_value(t[2 * i + 1])
        }),
{
    let t = encode_utf8(text@);
    let digit = |b: u8| 48 <= b <= 57 || 97 <= b <= 102 || 65 <= b <= 70;
    if t.len() % 2 == 0 {
        if forall|i: int| 0 <= i < t.len() ==> digit(#[trigger] t[i]) {
            assert forall|i: int| 0 <= i < t.len() / 2 implies (#[trigger] pair_at(t, i)) is Some by {
                assert(digit(t[2 * i]) && digit(t[2 * i + 1]));
            }
        }
        if r is Ok {
            assert forall|i: int| 0 <= i < t.len() implies digit(#[trigger] t[i]) by {
                let k = i / 2;
                assert(pair_at(t, k) is Some);
                assert(i == 2 * k || i == 2 * k + 1);
            }
            assert forall|i: int| 0 <= i < r->Ok_0@.len() implies #[trigger] r->Ok_0@[i] == 16
                * digit_value(t[2 * i]) + digit_value(t[2 * i + 1]) by {
                assert(pair_at(t, i) is Some);
            }
        }
    }
}

/// The value of a hexadecimal digit in ASCII, for a digit.
pub open spec fn digit_value(b: u8) -> int {
    if b <= 57 {
        b - 48
    } else if b <= 70 {
        b - 65 + 10
    } else {
        b - 97 + 10
    }
}

/// Bytes are written as two lower-case digits each, the upper half first.
pub proof fn law_hexadecimal_is_written_by_halves(bytes: &[u8], r: String, i: int)
    requires
        call_ensures(hex_encode, (bytes,), r),
        0 <= i < bytes@.len(),
    ensures
        r@.len() == 2 * bytes@.len(),
        is_lower_hex(r@[2 * i]) && is_lower_hex(r@[2 * i + 1]),
        digit_value(r@[2 * i] as u8) == bytes@[i] as int / 16,
        digit_value(r@[2 * i + 1] as u8) == bytes@[i] as int % 16,
{
    lemma_hex_digits(bytes@);
    let b = bytes@[i] as int;
    assert((2 * i) / 2 == i && (2 * i + 1) / 2 == i);
    assert(r@[2 * i] == hex_digit(b / 16));
    assert(r@[2 * i + 1] == hex_digit(b % 16));
    lemma_char_code(r@[2 * i]);
    lemma_char_code(r@[2 * i + 1]);
}

} // verus!
