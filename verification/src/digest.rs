//! Hashes of files.

use vstd::prelude::*;

use crate::boot::is_hash_text;
use crate::text::str_eq;

verus! {

/// The SHA-256 hash of the bytes in hexadecimal digits, as `sha2::Sha256::digest`
/// computes it.
pub uninterp spec fn sha256_hex(bytes: Seq<u8>) -> Seq<char>;

/// `sha2::Sha256::digest`, written out in lower case: 32 bytes make 64 digits.
#[verifier::external_body]
pub(crate) fn sha_bytes(bytes: &[u8]) -> (hash: String)
    ensures
        hash@ == sha256_hex(bytes@),
        is_hash_text(hash@),
{
    format!("{:x}", <sha2::Sha256 as sha2::Digest>::digest(bytes))
}

/// A file that was read has that hash.
pub open spec fn holds(found: Option<Vec<u8>>, hash: Seq<char>) -> bool {
    found matches Some(bytes) && sha256_hex(bytes@) == hash
}

/// The cached copy of a library, if it could be read, needs no replacement.
pub fn cache_is_current(found: &Option<Vec<u8>>, hash: &str) -> (yes: bool)
    ensures
        yes == holds(*found, hash@),
{
    match found {
        Some(bytes) => {
            let actual = sha_bytes(bytes.as_slice());
            str_eq(actual.as_str(), hash)
        },
        None => false,
    }
}

/// Checks the cached copy of a library once it has been replaced.
pub fn check_replaced(found: &Option<Vec<u8>>, hash: &str) -> (result: Result<(), String>)
    ensures
        if holds(*found, hash@) {
            result == Ok::<(), String>(())
        } else {
            result matches Err(e) && e@
                == "cached library SHA-256 mismatch after atomic replacement"@
        },
{
    if cache_is_current(found, hash) {
        Ok(())
    } else {
        Err("cached library SHA-256 mismatch after atomic replacement".to_owned())
    }
}

} // verus!
