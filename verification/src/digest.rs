//! Short content digests: the first eight bytes of a SHA-256 digest, in hexadecimal.

use sha2::Digest;
use vstd::prelude::*;
use vstd::slice::slice_subrange;

verus! {

/// The SHA-256 digest of some bytes.
pub uninterp spec fn sha256(data: Seq<u8>) -> Seq<u8>;

/// `sha2::Sha256::digest` gives the digest of exactly the bytes handed to it, and a SHA-256
/// digest is 32 bytes long.
#[verifier::external_body]
fn sha256_digest(data: &[u8]) -> (digest: Vec<u8>)
    ensures
        digest@ == sha256(data@),
        digest@.len() == 32,
{
    sha2::Sha256::digest(data).to_vec()
}

/// The lower-case hexadecimal digit of a value below sixteen.
pub open spec fn hex_digit(value: int) -> char {
    if value < 10 {
        (48 + value) as char
    } else {
        (87 + value) as char
    }
}

/// Two hexadecimal digits for each byte, the high one first.
pub open spec fn hex_text(data: Seq<u8>) -> Seq<char> {
    Seq::new(
        2 * data.len(),
        |i: int|
            if i % 2 == 0 {
                hex_digit(data[i / 2] as int / 16)
            } else {
                hex_digit(data[i / 2] as int % 16)
            },
    )
}

/// `hex::encode` writes each byte as two lower-case hexadecimal digits, the high one first. The
/// text must fit in memory.
#[verifier::external_body]
fn hex_encode(data: &[u8]) -> (encoded: String)
    requires
        2 * data@.len() <= isize::MAX,
    ensures
        encoded@ == hex_text(data@),
{
    hex::encode(data)
}

/// The first eight bytes of the SHA-256 digest, in hexadecimal.
pub open spec fn short_hash_of(data: Seq<u8>) -> Seq<char> {
    hex_text(sha256(data).take(8))
}

/// The text is made of sixteen lower-case hexadecimal digits.
pub open spec fn is_short_hash(text: Seq<char>) -> bool {
    &&& text.len() == 16
    &&& forall|i: int|
        0 <= i < text.len() ==> '0' <= (#[trigger] text[i]) <= '9' || 'a' <= text[i] <= 'f'
}

/// Identifies some bytes by sixteen hexadecimal digits of their SHA-256 digest.
pub fn short_hash(data: &[u8]) -> (hash: String)
    ensures
        hash@ == short_hash_of(data@),
        is_short_hash(hash@),
{
    let digest = sha256_digest(data);
    let first = slice_subrange(digest.as_slice(), 0, 8);
    assert(digest@.subrange(0, 8) == digest@.take(8));
    hex_encode(first)
}

} // verus!
