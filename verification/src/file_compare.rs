//! Comparison of two files by content fingerprint.
use crate::hashing::{fingerprint_of, hash_file};
use vstd::prelude::*;

verus! {

/// Whether two fingerprints name the same content.
pub fn fingerprints_match(first: &str, second: &str) -> (identical: bool)
    ensures
        identical == (first@ == second@),
{
    first.eq(second)
}

/// Compares two files, given by their bytes, by fingerprint. Files with the
/// same bytes always compare as identical.
pub fn compare_files(first: &[u8], second: &[u8]) -> (identical: bool)
    ensures
        identical == (fingerprint_of(first@) == fingerprint_of(second@)),
        first@ == second@ ==> identical,
{
    let hash1 = hash_file(first);
    let hash2 = hash_file(second);
    fingerprints_match(hash1.as_str(), hash2.as_str())
}

} // verus!
