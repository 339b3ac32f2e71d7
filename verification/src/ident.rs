//! Stable identifiers: an opaque digest of an absolute path string.

use sha2::Digest;
use vstd::prelude::*;

verus! {

pub uninterp spec fn sha256_hex_of(s: Seq<char>) -> Seq<char>;

/// The identifier derived from an absolute path string.
///
/// Relies on `sha2::Sha256` (through the `Digest` trait): the digest of
/// the path's UTF-8 bytes depends on those bytes alone, and the `{:x}`
/// rendering of the 32-byte digest is exactly 64 lowercase hexadecimal
/// digits.
#[verifier::external_body]
pub(crate) fn hash_path(path: &str) -> (r: String)
    ensures
        r@ == sha256_hex_of(path@),
        r@.len() == 64,
        forall|i: int|
            0 <= i < r@.len() ==> (('0' <= r@[i] && r@[i] <= '9') || ('a' <= r@[i] && r@[i]
                <= 'f')),
{
    let mut hasher = sha2::Sha256::new();
    hasher.update(path.as_bytes());
    format!("{:x}", hasher.finalize())
}

} // verus!
