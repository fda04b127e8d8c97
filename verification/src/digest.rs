//! SHA-256 digests of bank assets and configuration documents, as lower-case
//! hexadecimal text, and the test of whether a text holds such a digest.

use vstd::prelude::*;
use vstd::string::*;
use sha2::Digest;
use crate::text::{hex_lower, hex_char, is_hex_digit, to_hex_lower};

verus! {

/// The SHA-256 digest of a byte string (FIPS 180-4), as computed by the `sha2` crate.
pub uninterp spec fn sha256(data: Seq<u8>) -> Seq<u8>;

/// Calls `sha2::Sha256::digest` on `data`. The contract claims that the digest
/// depends on the bytes alone and is 32 bytes long (`Sha256`'s output size is `U32`).
#[verifier::external_body]
fn sha256_digest(data: &[u8]) -> (r: Vec<u8>)
    ensures
        r@ == sha256(data@),
        r@.len() == 32,
{
    sha2::Sha256::digest(data).to_vec()
}

/// Text of exactly 64 hexadecimal digits (either case).
pub open spec fn is_sha256_text(s: Seq<char>) -> bool {
    s.len() == 64 && forall|i: int| 0 <= i < s.len() ==> is_hex_digit(#[trigger] s[i])
}

/// SHA-256 hex digest of a byte slice.
pub fn sha256_hex(bytes: &[u8]) -> (r: String)
    ensures
        r@ == hex_lower(sha256(bytes@)),
        r@.len() == 64,
        is_sha256_text(r@),
{
    let digest = sha256_digest(bytes);
    let s = to_hex_lower(digest.as_slice());
    proof {
        lemma_hex_lower_shape(digest@);
    }
    s
}

/// `hex_lower` doubles the length and yields only hexadecimal digits.
pub proof fn lemma_hex_lower_shape(bytes: Seq<u8>)
    ensures
        hex_lower(bytes).len() == 2 * bytes.len(),
        forall|i: int| 0 <= i < hex_lower(bytes).len() ==> is_hex_digit(#[trigger] hex_lower(bytes)[i]),
    decreases bytes.len(),
{
    if bytes.len() > 0 {
        lemma_hex_lower_shape(bytes.drop_last());
        lemma_hex_char_is_digit((bytes.last() / 16) as nat);
        lemma_hex_char_is_digit((bytes.last() % 16) as nat);
        let h = hex_lower(bytes);
        let p = hex_lower(bytes.drop_last());
        assert forall|i: int| 0 <= i < h.len() implies is_hex_digit(#[trigger] h[i]) by {
            if i < p.len() {
                assert(h[i] == p[i]);
            }
        }
    }
}

proof fn lemma_hex_char_is_digit(d: nat)
    ensures
        is_hex_digit(hex_char(d)),
{
}

/// Is `value` exactly 64 ASCII hexadecimal digits?
pub fn is_hex_sha256(value: &str) -> (r: bool)
    ensures
        r == is_sha256_text(value@),
{
    let n = value.unicode_len();
    if n != 64 {
        return false;
    }
    let mut i: usize = 0;
    while i < n
        invariant
            n == value@.len(),
            n == 64,
            i <= n,
            forall|j: int| 0 <= j < i ==> is_hex_digit(#[trigger] value@[j]),
        decreases n - i,
    {
        let c = value.get_char(i);
        if !(('0' <= c && c <= '9') || ('a' <= c && c <= 'f') || ('A' <= c && c <= 'F')) {
            assert(!is_hex_digit(value@[i as int]));
            return false;
        }
        i = i + 1;
    }
    true
}

} // verus!
