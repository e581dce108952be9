//! Digests and encodings. The digests themselves come from outside crates; so do
//! hex and base64.

use base64::Engine;
use hmac::{Hmac, KeyInit, Mac};
use sha2::{Digest, Sha256};
use vstd::prelude::*;

verus! {

// ---------------------------------------------------------------------------
// Hex
// ---------------------------------------------------------------------------

/// The lowercase hex digit of a value below sixteen.
pub open spec fn hex_digit(v: int) -> char {
    if v < 10 {
        (('0' as u32) + v) as char
    } else {
        (('a' as u32) + v - 10) as char
    }
}

/// Bytes in lowercase hex, two digits each.
pub open spec fn hex_text(data: Seq<u8>) -> Seq<char> {
    Seq::new(
        2 * data.len(),
        |i: int|
            if i % 2 == 0 {
                hex_digit(data[i / 2] as int / 16)
            } else {
                hex_digit(data[i / 2] as int % 16)
            },
    )
}

/// `hex::encode` writes each byte as two lowercase hex digits, the high one first.
/// The text must be one that a string can hold.
#[verifier::external_body]
pub(crate) fn hex_encode(data: &[u8]) -> (text: String)
    requires
        2 * data@.len() <= isize::MAX,
    ensures
        text@ == hex_text(data@),
{
    hex::encode(data)
}

// ---------------------------------------------------------------------------
// Base64
// ---------------------------------------------------------------------------

/// The character of a six-bit value in the standard alphabet.
pub open spec fn base64_char(v: int) -> char {
    if v < 26 {
        (('A' as u32) + v) as char
    } else if v < 52 {
        (('a' as u32) + v - 26) as char
    } else if v < 62 {
        (('0' as u32) + v - 52) as char
    } else if v == 62 {
        '+'
    } else {
        '/'
    }
}

/// Bytes in base64: three bytes in four characters, padded with `=` at the end.
pub open spec fn base64_text(data: Seq<u8>) -> Seq<char>
    decreases data.len(),
{
    if data.len() == 0 {
        Seq::empty()
    } else if data.len() == 1 {
        let n = data[0] as int * 16;
        seq![base64_char(n / 64), base64_char(n % 64), '=', '=']
    } else if data.len() == 2 {
        let n = (data[0] as int * 256 + data[1] as int) * 4;
        seq![base64_char(n / 4096), base64_char(n / 64 % 64), base64_char(n % 64), '=']
    } else {
        let n = data[0] as int * 65536 + data[1] as int * 256 + data[2] as int;
        seq![
            base64_char(n / 262144),
            base64_char(n / 4096 % 64),
            base64_char(n / 64 % 64),
            base64_char(n % 64),
        ] + base64_text(data.skip(3))
    }
}

/// `Engine::encode` of the `base64` crate's `STANDARD` engine: the standard
/// alphabet, padded. The text must be one that a string can hold.
#[verifier::external_body]
pub(crate) fn base64_encode(data: &[u8]) -> (text: String)
    requires
        4 * ((data@.len() + 2) / 3) <= isize::MAX,
    ensures
        text@ == base64_text(data@),
{
    base64::engine::general_purpose::STANDARD.encode(data)
}

/// What the `base64` crate's `DecodeError` prints for a text that is not base64.
pub uninterp spec fn base64_complaint(text: Seq<char>) -> Seq<char>;

/// `Engine::decode` of the `base64` crate's `STANDARD` engine: it accepts exactly
/// the texts that encoding produces, since it wants canonical padding and no stray
/// bits in the last character. A failure is handed on as its printed form.
#[verifier::external_body]
pub(crate) fn base64_decode(text: &str) -> (r: Result<Vec<u8>, String>)
    ensures
        match r {
            Ok(data) => text@ == base64_text(data@),
            Err(complaint) => complaint@ == base64_complaint(text@) && forall|data: Seq<u8>| text@
                != #[trigger] base64_text(data),
        },
{
    base64::engine::general_purpose::STANDARD.decode(text).map_err(|e| e.to_string())
}

/// Whether the text is base64 of something.
pub open spec fn is_base64(text: Seq<char>) -> bool {
    exists|data: Seq<u8>| #[trigger] base64_text(data) == text
}

/// The bytes that a base64 text stands for.
pub open spec fn base64_data(text: Seq<char>) -> Seq<u8> {
    choose|data: Seq<u8>| #[trigger] base64_text(data) == text
}

proof fn lemma_base64_char_injective(a: int, b: int)
    requires
        0 <= a < 64,
        0 <= b < 64,
        base64_char(a) == base64_char(b),
    ensures
        a == b,
{
}

proof fn lemma_base64_char_is_no_padding(v: int)
    requires
        0 <= v < 64,
    ensures
        base64_char(v) != '=',
{
}

/// Two numbers of twenty-four bits with the same four six-bit digits are equal.
proof fn lemma_same_sextets(n: int, m: int)
    requires
        0 <= n < 16777216,
        0 <= m < 16777216,
        base64_char(n / 262144) == base64_char(m / 262144),
        base64_char(n / 4096 % 64) == base64_char(m / 4096 % 64),
        base64_char(n / 64 % 64) == base64_char(m / 64 % 64),
        base64_char(n % 64) == base64_char(m % 64),
    ensures
        n == m,
{
    lemma_base64_char_injective(n / 262144, m / 262144);
    lemma_base64_char_injective(n / 4096 % 64, m / 4096 % 64);
    lemma_base64_char_injective(n / 64 % 64, m / 64 % 64);
    lemma_base64_char_injective(n % 64, m % 64);
}

/// Two numbers of eighteen bits with the same three six-bit digits are equal.
proof fn lemma_same_three_sextets(n: int, m: int)
    requires
        0 <= n < 262144,
        0 <= m < 262144,
        base64_char(n / 4096) == base64_char(m / 4096),
        base64_char(n / 64 % 64) == base64_char(m / 64 % 64),
        base64_char(n % 64) == base64_char(m % 64),
    ensures
        n == m,
{
    lemma_base64_char_injective(n / 4096, m / 4096);
    lemma_base64_char_injective(n / 64 % 64, m / 64 % 64);
    lemma_base64_char_injective(n % 64, m % 64);
}

/// Two numbers of twelve bits with the same two six-bit digits are equal.
proof fn lemma_same_two_sextets(n: int, m: int)
    requires
        0 <= n < 4096,
        0 <= m < 4096,
        base64_char(n / 64) == base64_char(m / 64),
        base64_char(n % 64) == base64_char(m % 64),
    ensures
        n == m,
{
    lemma_base64_char_injective(n / 64, m / 64);
    lemma_base64_char_injective(n % 64, m % 64);
}

#[verifier::rlimit(50)]
#[verifier::spinoff_prover]
proof fn lemma_base64_triple(left: Seq<u8>, right: Seq<u8>)
    requires
        left.len() >= 3,
        right.len() >= 3,
        base64_text(left) == base64_text(right),
    ensures
        left[0] == right[0],
        left[1] == right[1],
        left[2] == right[2],
        base64_text(left.skip(3)) == base64_text(right.skip(3)),
{
    let n = left[0] as int * 65536 + left[1] as int * 256 + left[2] as int;
    let m = right[0] as int * 65536 + right[1] as int * 256 + right[2] as int;
    let s = base64_text(left);
    let t = base64_text(right);
    assert(s[0] == base64_char(n / 262144) && s[1] == base64_char(n / 4096 % 64) && s[2]
        == base64_char(n / 64 % 64) && s[3] == base64_char(n % 64));
    assert(t[0] == base64_char(m / 262144) && t[1] == base64_char(m / 4096 % 64) && t[2]
        == base64_char(m / 64 % 64) && t[3] == base64_char(m % 64));
    lemma_same_sextets(n, m);
    assert(base64_text(left.skip(3)) =~= s.skip(4));
    assert(base64_text(right.skip(3)) =~= t.skip(4));
}

proof fn lemma_base64_tail(left: Seq<u8>, right: Seq<u8>)
    requires
        left.len() == right.len(),
        1 <= left.len() <= 2,
        base64_text(left) == base64_text(right),
    ensures
        left == right,
{
    let s = base64_text(left);
    let t = base64_text(right);
    if left.len() == 1 {
        let n = left[0] as int * 16;
        let m = right[0] as int * 16;
        assert(s == seq![base64_char(n / 64), base64_char(n % 64), '=', '=']);
        assert(t == seq![base64_char(m / 64), base64_char(m % 64), '=', '=']);
        assert(s[0] == t[0] && s[1] == t[1]);
        lemma_same_two_sextets(n, m);
    } else {
        let n = (left[0] as int * 256 + left[1] as int) * 4;
        let m = (right[0] as int * 256 + right[1] as int) * 4;
        assert(s == seq![base64_char(n / 4096), base64_char(n / 64 % 64), base64_char(n % 64), '=']);
        assert(t == seq![base64_char(m / 4096), base64_char(m / 64 % 64), base64_char(m % 64), '=']);
        assert(s[0] == t[0] && s[1] == t[1] && s[2] == t[2]);
        lemma_same_three_sextets(n, m);
    }
    assert(left =~= right);
}

/// Different bytes have different base64 texts, so that decoding gives back what
/// was encoded.
pub proof fn law_base64_is_injective(left: Seq<u8>, right: Seq<u8>)
    requires
        base64_text(left) == base64_text(right),
    ensures
        left == right,
    decreases left.len(),
{
    if left.len() > 0 {
        lemma_base64_head(left);
    }
    if right.len() > 0 {
        lemma_base64_head(right);
    }
    if left.len() == 0 || right.len() == 0 {
        assert(left =~= right);
    } else if left.len() >= 3 && right.len() >= 3 {
        lemma_base64_triple(left, right);
        law_base64_is_injective(left.skip(3), right.skip(3));
        assert(left =~= left.take(3) + left.skip(3));
        assert(right =~= right.take(3) + right.skip(3));
        assert(left.take(3) =~= right.take(3));
    } else {
        lemma_base64_tail(left, right);
    }
}

/// The third and fourth characters tell how many bytes a text that is not longer
/// stands for.
proof fn lemma_base64_head(data: Seq<u8>)
    requires
        data.len() > 0,
    ensures
        base64_text(data).len() >= 4,
        base64_text(data)[2] == '=' <==> data.len() == 1,
        base64_text(data)[3] == '=' <==> data.len() <= 2,
{
    if data.len() == 1 {
    } else if data.len() == 2 {
        let n = (data[0] as int * 256 + data[1] as int) * 4;
        lemma_base64_char_is_no_padding(n % 64);
    } else {
        let n = data[0] as int * 65536 + data[1] as int * 256 + data[2] as int;
        lemma_base64_char_is_no_padding(n / 64 % 64);
        lemma_base64_char_is_no_padding(n % 64);
    }
}

// ---------------------------------------------------------------------------
// Digests
// ---------------------------------------------------------------------------

/// SHA-256 of the bytes.
pub uninterp spec fn sha256_of(data: Seq<u8>) -> Seq<u8>;

/// `Sha256::digest` of the `sha2` crate. The digest has thirty-two bytes.
#[verifier::external_body]
pub(crate) fn sha256(data: &[u8]) -> (digest: Vec<u8>)
    ensures
        digest@ == sha256_of(data@),
        digest@.len() == 32,
{
    Sha256::digest(data).to_vec()
}

/// HMAC-SHA-256 of the bytes under the key.
pub uninterp spec fn hmac_sha256_of(key: Seq<u8>, data: Seq<u8>) -> Seq<u8>;

/// HMAC-SHA-256, with `Hmac<Sha256>` of the `hmac` and `sha2` crates, which takes
/// a key of any length. The code has thirty-two bytes.
#[verifier::external_body]
pub(crate) fn hmac_sha256(key: &[u8], data: &[u8]) -> (code: Vec<u8>)
    ensures
        code@ == hmac_sha256_of(key@, data@),
        code@.len() == 32,
{
    let mut mac = <Hmac<Sha256>>::new_from_slice(key).expect("any key length");
    mac.update(data);
    mac.finalize().into_bytes().to_vec()
}

/// SHA-1 of the bytes.
pub uninterp spec fn sha1_of(data: Seq<u8>) -> Seq<u8>;

/// The SHA-1 hasher of the `sha1` crate.
#[verifier::external_type_specification]
#[verifier::external_body]
pub struct ExSha1(sha1::Sha1);

/// The bytes that a hasher has taken in.
pub uninterp spec fn sha1_taken(hasher: sha1::Sha1) -> Seq<u8>;

/// `Sha1::new`: a hasher that has taken in nothing.
#[verifier::external_body]
pub(crate) fn sha1_new() -> (hasher: sha1::Sha1)
    ensures
        sha1_taken(hasher) == Seq::<u8>::empty(),
{
    sha1::Sha1::new()
}

/// `Digest::update` takes in more bytes, after those taken in before.
#[verifier::external_body]
pub(crate) fn sha1_update(hasher: &mut sha1::Sha1, data: &[u8])
    ensures
        sha1_taken(*final(hasher)) == sha1_taken(*old(hasher)) + data@,
{
    hasher.update(data)
}

/// `Digest::finalize` gives the SHA-1 of everything taken in: twenty bytes.
#[verifier::external_body]
pub(crate) fn sha1_finalize(hasher: sha1::Sha1) -> (digest: Vec<u8>)
    ensures
        digest@ == sha1_of(sha1_taken(hasher)),
        digest@.len() == 20,
{
    hasher.finalize().to_vec()
}

/// The name hash of an entry: HMAC-SHA-256 of its name under the hash key of the
/// folder, in hex.
pub open spec fn name_hash_text(hash_key: Seq<u8>, name: Seq<u8>) -> Seq<char> {
    hex_text(hmac_sha256_of(hash_key, name))
}

/// The name hash of an entry.
pub fn name_hash(hash_key: &[u8], name: &[u8]) -> (text: String)
    ensures
        text@ == name_hash_text(hash_key@, name@),
        text@ == hex_text(hmac_sha256_of(hash_key@, name@)),
{
    let code: Vec<u8> = hmac_sha256(hash_key, name);
    hex_encode(code.as_slice())
}

/// SHA-1 of the bytes, in hex.
pub fn sha1_hex(data: &[u8]) -> (text: String)
    ensures
        text@ == hex_text(sha1_of(data@)),
{
    let mut hasher: sha1::Sha1 = sha1_new();
    sha1_update(&mut hasher, data);
    assert(sha1_taken(hasher) =~= data@);
    let digest: Vec<u8> = sha1_finalize(hasher);
    hex_encode(digest.as_slice())
}

/// The alphabet of base64: the capital letters, the small ones, the digits, then `+` and
/// `/`.
pub proof fn law_base64_alphabet(v: int)
    requires
        0 <= v < 64,
    ensures
        v < 26 ==> base64_char(v) as int == 'A' as int + v,
        26 <= v < 52 ==> base64_char(v) as int == 'a' as int + (v - 26),
        52 <= v < 62 ==> base64_char(v) as int == '0' as int + (v - 52),
        v == 62 ==> base64_char(v) == '+',
        v == 63 ==> base64_char(v) == '/',
{
}

/// The value of a hexadecimal digit.
pub open spec fn hex_value(c: char) -> int {
    if '0' <= c <= '9' {
        c as int - '0' as int
    } else {
        c as int - 'a' as int + 10
    }
}

/// Hexadecimal text reads back: two small digits for each byte, the high one first.
pub proof fn law_hex_reads_back(data: Seq<u8>, i: int)
    requires
        0 <= i < data.len(),
    ensures
        hex_text(data).len() == 2 * data.len(),
        ({
            let high = hex_text(data)[2 * i];
            let low = hex_text(data)[2 * i + 1];
            &&& '0' <= high <= '9' || 'a' <= high <= 'f'
            &&& '0' <= low <= '9' || 'a' <= low <= 'f'
            &&& hex_value(high) * 16 + hex_value(low) == data[i]
        }),
{
    let b = data[i] as int;
    assert((2 * i) / 2 == i && (2 * i) % 2 == 0);
    assert((2 * i + 1) / 2 == i && (2 * i + 1) % 2 == 1);
    assert(0 <= b / 16 < 16 && 0 <= b % 16 < 16);
}

/// A hash of a name is keyed, and written in hexadecimal.
pub proof fn law_name_hashes_are_keyed(hash_key: Seq<u8>, name: Seq<u8>)
    ensures
        name_hash_text(hash_key, name) == hex_text(hmac_sha256_of(hash_key, name)),
{
}

/// The number that a character of base64 stands for.
pub open spec fn base64_value(c: char) -> int {
    if 'A' <= c <= 'Z' {
        c as int - 'A' as int
    } else if 'a' <= c <= 'z' {
        c as int - 'a' as int + 26
    } else if '0' <= c <= '9' {
        c as int - '0' as int + 52
    } else if c == '+' {
        62
    } else {
        63
    }
}

proof fn lemma_value_of_char(v: int)
    requires
        0 <= v < 64,
    ensures
        base64_value(base64_char(v)) == v,
{
}

proof fn lemma_value_of_group(n: int)
    requires
        0 <= n < 16777216,
    ensures
        base64_value(base64_char(n / 262144)) * 262144 + base64_value(base64_char(n / 4096 % 64))
            * 4096 + base64_value(base64_char(n / 64 % 64)) * 64 + base64_value(
            base64_char(n % 64),
        ) == n,
{
    lemma_value_of_char(n / 262144);
    lemma_value_of_char(n / 4096 % 64);
    lemma_value_of_char(n / 64 % 64);
    lemma_value_of_char(n % 64);
    let (a, b, c, d) = (n / 262144, n / 4096 % 64, n / 64 % 64, n % 64);
    assert(a * 262144 + b * 4096 + c * 64 + d == n);
}

proof fn lemma_text_of_three(data: Seq<u8>)
    requires
        data.len() >= 3,
    ensures
        ({
            let t = base64_text(data);
            let n = data[0] as int * 65536 + data[1] as int * 256 + data[2] as int;
            &&& t.len() == 4 + base64_text(data.skip(3)).len()
            &&& t.skip(4) == base64_text(data.skip(3))
            &&& t[0] == base64_char(n / 262144)
            &&& t[1] == base64_char(n / 4096 % 64)
            &&& t[2] == base64_char(n / 64 % 64)
            &&& t[3] == base64_char(n % 64)
        }),
{
    let n = data[0] as int * 65536 + data[1] as int * 256 + data[2] as int;
    let head = seq![
        base64_char(n / 262144),
        base64_char(n / 4096 % 64),
        base64_char(n / 64 % 64),
        base64_char(n % 64),
    ];
    let t = base64_text(data);
    assert(t == head + base64_text(data.skip(3)));
    assert(t.skip(4) =~= base64_text(data.skip(3)));
}

/// Base64 writes four characters for three bytes, and they hold the same number.
pub proof fn law_base64_groups_hold_three_bytes(data: Seq<u8>, i: int)
    requires
        0 <= i,
        3 * i + 3 <= data.len(),
    ensures
        4 * i + 4 <= base64_text(data).len(),
        ({
            let t = base64_text(data);
            base64_value(t[4 * i]) * 262144 + base64_value(t[4 * i + 1]) * 4096 + base64_value(
                t[4 * i + 2],
            ) * 64 + base64_value(t[4 * i + 3]) == data[3 * i] * 65536 + data[3 * i + 1] * 256
                + data[3 * i + 2]
        }),
    decreases i,
{
    let t = base64_text(data);
    lemma_text_of_three(data);
    if i == 0 {
        lemma_value_of_group(data[0] as int * 65536 + data[1] as int * 256 + data[2] as int);
    } else {
        let j = i - 1;
        let rest = data.skip(3);
        law_base64_groups_hold_three_bytes(rest, j);
        let u = base64_text(rest);
        assert(t.skip(4)[4 * j] == t[4 * i]);
        assert(t.skip(4)[4 * j + 1] == t[4 * i + 1]);
        assert(t.skip(4)[4 * j + 2] == t[4 * i + 2]);
        assert(t.skip(4)[4 * j + 3] == t[4 * i + 3]);
        assert(rest[3 * j] == data[3 * i] && rest[3 * j + 1] == data[3 * i + 1] && rest[3 * j + 2]
            == data[3 * i + 2]);
    }
}

/// Base64 comes in fours: what is left over of threes is filled up with `=`.
pub proof fn law_base64_comes_in_fours(data: Seq<u8>)
    ensures
        base64_text(data).len() == (data.len() + 2) / 3 * 4,
        data.len() % 3 == 1 ==> base64_text(data).last() == '=' && base64_text(
            data,
        )[base64_text(data).len() - 2] == '=',
        data.len() % 3 == 2 ==> base64_text(data).last() == '=',
    decreases data.len(),
{
    if data.len() >= 3 {
        let t = base64_text(data);
        let rest = data.skip(3);
        lemma_text_of_three(data);
        law_base64_comes_in_fours(rest);
        if rest.len() > 0 {
            let u = base64_text(rest);
            assert(u.last() == t.skip(4)[u.len() - 1]);
            assert(u.last() == t.last());
            assert(rest.len() % 3 == 1 ==> u[u.len() - 2] == t[t.len() - 2]);
        }
    }
}

/// What base64 text stands for is what it was written from, and text that was written is
/// base64. Base64 comes in fours.
pub proof fn law_base64_is_read_back(data: Seq<u8>, text: Seq<char>)
    ensures
        is_base64(base64_text(data)),
        base64_data(base64_text(data)) == data,
        is_base64(text) ==> base64_text(base64_data(text)) == text,
        is_base64(text) ==> text.len() % 4 == 0,
{
    let written = base64_text(data);
    assert(base64_text(data) == written);
    law_base64_is_injective(base64_data(written), data);
    if is_base64(text) {
        law_base64_comes_in_fours(base64_data(text));
    }
}

} // verus!
