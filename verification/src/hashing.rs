//! Content hashes: SHA-256 in lower-case hexadecimal.

use crate::text;
use sha2::Digest;
use vstd::prelude::*;

verus! {

/// The SHA-256 digest of some bytes.
pub uninterp spec fn sha256(data: Seq<u8>) -> Seq<u8>;

/// The lower-case hexadecimal digit of a number below 16.
pub open spec fn hex_digit(n: int) -> char {
    if n < 10 {
        (0x30 + n) as char
    } else {
        (0x57 + n) as char
    }
}

/// Two hexadecimal digits for each byte, the high one first.
pub open spec fn hex_text(data: Seq<u8>) -> Seq<char> {
    Seq::new(
        2 * data.len(),
        |i: int|
            hex_digit(
                if i % 2 == 0 {
                    data[i / 2] as int / 16
                } else {
                    data[i / 2] as int % 16
                },
            ),
    )
}

/// The full hash of a file with these contents.
pub open spec fn content_hash(data: Seq<u8>) -> Seq<char> {
    hex_text(sha256(data))
}

/// How many characters of a hash name a cache entry.
pub const KEY_LEN: usize = 16;

/// The part of the hash that names the cache entry of a lockfile with these contents.
pub open spec fn content_key(data: Seq<u8>) -> Seq<char> {
    content_hash(data).take(KEY_LEN as int)
}

/// `sha2::Sha256::digest`: the 32 bytes of the SHA-256 digest of the data.
#[verifier::external_body]
fn sha2_hash(data: &[u8]) -> (r: [u8; 32])
    ensures
        r@ == sha256(data@),
{
    sha2::Sha256::digest(data).into()
}

/// `hex::encode`: two lower-case hexadecimal digits for each byte.
#[verifier::external_body]
fn hex_encode(data: &[u8]) -> (r: String)
    ensures
        r@ == hex_text(data@),
{
    hex::encode(data)
}

/// The SHA-256 hash of a file's contents: 64 hexadecimal digits.
pub fn hash_file(data: &[u8]) -> (r: String)
    ensures
        r@ == content_hash(data@),
        r@.len() == 64,
{
    let digest = sha2_hash(data);
    hex_encode(&digest)
}

/// A hash is made of lower-case hexadecimal digits.
pub proof fn law_hash_is_lower_case_hex(data: Seq<u8>, i: int)
    requires
        0 <= i < content_hash(data).len(),
    ensures
        '0' <= content_hash(data)[i] <= '9' || 'a' <= content_hash(data)[i] <= 'f',
{
    let digest = sha256(data);
    let n = if i % 2 == 0 {
        digest[i / 2] as int / 16
    } else {
        digest[i / 2] as int % 16
    };
    assert(0 <= n < 16);
}

/// A hash is made of ASCII characters.
pub proof fn lemma_hash_is_ascii(data: Seq<u8>)
    ensures
        vstd::utf8::is_ascii_chars(content_hash(data)),
{
    assert forall|i: int| 0 <= i < content_hash(data).len() implies '\0' <= #[trigger] content_hash(
        data,
    )[i] <= '\u{7f}' by {
        law_hash_is_lower_case_hex(data, i);
    }
}

/// The part of a hash that names a cache entry.
pub fn short_key(hash: &str) -> (r: String)
    requires
        hash@.len() >= KEY_LEN,
    ensures
        r@ == hash@.take(KEY_LEN as int),
{
    let v = text::chars_of(hash);
    assert(v@.subrange(0, KEY_LEN as int) =~= hash@.take(KEY_LEN as int));
    text::string_of(&v, 0, KEY_LEN)
}

// ── What hashes promise ──────────────────────────────────────────────────────────────────
/// A hash is the digest of all of the contents: two lower-case hexadecimal digits for each byte
/// of it, the high one first.
pub proof fn law_hash_writes_the_digest(data: Seq<u8>, i: int)
    requires
        0 <= i < sha256(data).len(),
    ensures
        content_hash(data).len() == 2 * sha256(data).len(),
        content_hash(data)[2 * i] == "0123456789abcdef"@[sha256(data)[i] as int / 16],
        content_hash(data)[2 * i + 1] == "0123456789abcdef"@[sha256(data)[i] as int % 16],
{
    lemma_digits(sha256(data)[i] as int / 16);
    lemma_digits(sha256(data)[i] as int % 16);
    assert((2 * i) / 2 == i && (2 * i) % 2 == 0);
    assert((2 * i + 1) / 2 == i && (2 * i + 1) % 2 == 1);
}

/// Two hexadecimal digits for each byte, the high one first.
pub proof fn law_hex_text(data: Seq<u8>, i: int)
    requires
        0 <= i < data.len(),
    ensures
        hex_text(data).len() == 2 * data.len(),
        hex_text(data)[2 * i] == "0123456789abcdef"@[data[i] as int / 16],
        hex_text(data)[2 * i + 1] == "0123456789abcdef"@[data[i] as int % 16],
{
    lemma_digits(data[i] as int / 16);
    lemma_digits(data[i] as int % 16);
    assert((2 * i) / 2 == i && (2 * i) % 2 == 0);
    assert((2 * i + 1) / 2 == i && (2 * i + 1) % 2 == 1);
}

proof fn lemma_digits(n: int)
    requires
        0 <= n < 16,
    ensures
        hex_digit(n) == "0123456789abcdef"@[n],
{
    reveal_strlit("0123456789abcdef");
}

/// The digits tell the bytes apart.
proof fn lemma_digits_differ(a: u8, b: u8)
    requires
        "0123456789abcdef"@[a as int / 16] == "0123456789abcdef"@[b as int / 16],
        "0123456789abcdef"@[a as int % 16] == "0123456789abcdef"@[b as int % 16],
    ensures
        a == b,
{
    reveal_strlit("0123456789abcdef");
    assert(forall|m: int, n: int|
        0 <= m < 16 && 0 <= n < 16 && "0123456789abcdef"@[m] == "0123456789abcdef"@[n] ==> m == n);
}

/// Contents with different digests have different hashes.
pub proof fn law_hash_tells_contents_apart(a: Seq<u8>, b: Seq<u8>)
    ensures
        content_hash(a) == content_hash(b) <==> sha256(a) == sha256(b),
{
    if content_hash(a) == content_hash(b) {
        let x = sha256(a);
        let y = sha256(b);
        assert(x.len() == y.len()) by {
            if x.len() > 0 {
                law_hash_writes_the_digest(a, 0);
            }
            if y.len() > 0 {
                law_hash_writes_the_digest(b, 0);
            }
            assert(content_hash(a).len() == 2 * x.len() && content_hash(b).len() == 2 * y.len());
        }
        assert forall|i: int| 0 <= i < x.len() implies x[i] == y[i] by {
            law_hash_writes_the_digest(a, i);
            law_hash_writes_the_digest(b, i);
            lemma_digits_differ(x[i], y[i]);
        }
        assert(x =~= y);
    }
}

/// The key of a cache entry is the first 16 characters of the hash, and so tells lockfiles apart
/// whose digests differ in their first eight bytes.
pub proof fn law_key_begins_the_hash(data: Seq<u8>, other: Seq<u8>)
    requires
        sha256(data).len() == 32,
        sha256(other).len() == 32,
    ensures
        content_key(data).len() == 16,
        forall|i: int| 0 <= i < 16 ==> content_key(data)[i] == content_hash(data)[i],
        content_key(data) == content_key(other) <==> sha256(data).take(8) == sha256(other).take(8),
{
    law_hash_writes_the_digest(data, 0);
    law_hash_writes_the_digest(other, 0);
    let x = sha256(data).take(8);
    let y = sha256(other).take(8);
    if content_key(data) == content_key(other) {
        assert forall|i: int| 0 <= i < 8 implies x[i] == y[i] by {
            law_hash_writes_the_digest(data, i);
            law_hash_writes_the_digest(other, i);
            assert(content_key(data)[2 * i] == content_hash(data)[2 * i]);
            assert(content_key(data)[2 * i + 1] == content_hash(data)[2 * i + 1]);
            assert(content_key(other)[2 * i] == content_hash(other)[2 * i]);
            assert(content_key(other)[2 * i + 1] == content_hash(other)[2 * i + 1]);
            lemma_digits_differ(x[i], y[i]);
        }
        assert(x =~= y);
    }
    if x == y {
        assert forall|i: int| 0 <= i < 16 implies content_key(data)[i] == content_key(other)[i] by {
            let j = i / 2;
            assert(x[j] == y[j]);
            law_hash_writes_the_digest(data, j);
            law_hash_writes_the_digest(other, j);
            assert(i == 2 * j || i == 2 * j + 1);
        }
        assert(content_key(data) =~= content_key(other));
    }
}

} // verus!
