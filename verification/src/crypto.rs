use vstd::prelude::*;

use crate::encoding::{hex_encode, hex_encode_spec};
use sha2::Digest;
use std::hash::Hasher;

verus! {

/// The SHA-256 digest of a byte string.
pub uninterp spec fn sha256_digest(data: Seq<u8>) -> Seq<u8>;

/// `sha2::Sha256::digest`: the 32-byte SHA-256 digest of `data`.
#[verifier::external_body]
pub(crate) fn sha256(data: &[u8]) -> (d: Vec<u8>)
    ensures
        d@ == sha256_digest(data@),
        d@.len() == 32,
{
    sha2::Sha256::digest(data).to_vec()
}

/// Lowercase hex of the SHA-256 digest: the content address of a chunk or file.
pub open spec fn content_hash(data: Seq<u8>) -> Seq<char> {
    hex_encode_spec(sha256_digest(data))
}

pub struct HashUtils;

impl HashUtils {
    /// Hex-encoded SHA-256 of `data`.
    pub fn hash_data(data: &[u8]) -> (h: String)
        ensures
            h@ == content_hash(data@),
    {
        let digest = sha256(data);
        hex_encode(digest.as_slice())
    }

    /// Whether `data` hashes to `expected_hash`.
    pub fn verify_data(data: &[u8], expected_hash: &str) -> (ok: bool)
        ensures
            ok == (content_hash(data@) == expected_hash@),
    {
        let actual = Self::hash_data(data);
        let expected = String::from_str(expected_hash);
        actual == expected
    }
}

pub struct CryptoUtils;

impl CryptoUtils {
    /// Hex-encoded SHA-256 of `data`.
    pub fn hash_sha256(data: &[u8]) -> (h: String)
        ensures
            h@ == content_hash(data@),
    {
        let digest = sha256(data);
        hex_encode(digest.as_slice())
    }

    /// A fast, non-cryptographic 64-bit hash of any hashable value, computed
    /// with std's `DefaultHasher`; nothing is stated of its value.
    #[verifier::external_body]
    pub fn hash_fast<T: std::hash::Hash>(data: &T) -> u64 {
        let mut hasher = std::collections::hash_map::DefaultHasher::new();
        data.hash(&mut hasher);
        hasher.finish()
    }

    /// Whether the SHA-256 of `data` is `expected_hash`.
    pub fn verify_integrity(data: &[u8], expected_hash: &str) -> (ok: bool)
        ensures
            ok == (content_hash(data@) == expected_hash@),
    {
        let actual = Self::hash_sha256(data);
        let expected = String::from_str(expected_hash);
        actual == expected
    }
}

} // verus!
