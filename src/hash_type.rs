use vstd::prelude::*;

use crate::error::CrackError;

verus! {

/// Largest number of workers a search may use.
pub const MAX_WORKERS: usize = 10;

/// The digest algorithms a target can be matched against.
#[derive(Clone, Copy, Debug, PartialEq, Eq, Structural)]
pub enum HashType {
    MD5,
    SHA1,
    SHA256,
    SHA512,
}

/// The algorithm whose hex digest has `n` characters, if any.
pub open spec fn hash_type_for_len(n: nat) -> Option<HashType> {
    if n == 32 {
        Some(HashType::MD5)
    } else if n == 40 {
        Some(HashType::SHA1)
    } else if n == 64 {
        Some(HashType::SHA256)
    } else if n == 128 {
        Some(HashType::SHA512)
    } else {
        None
    }
}

/// Detects the algorithm of a hex digest from its length in characters.
pub fn get_hash_type(hash: &str) -> (r: Result<HashType, CrackError>)
    ensures
        match hash_type_for_len(hash@.len()) {
            Some(t) => r == Ok::<HashType, CrackError>(t),
            None => r == Err::<HashType, CrackError>(
                CrackError::InvalidDigestLength { len: hash@.len() as usize },
            ),
        },
{
    let n = hash.unicode_len();
    if n == 32 {
        Ok(HashType::MD5)
    } else if n == 40 {
        Ok(HashType::SHA1)
    } else if n == 64 {
        Ok(HashType::SHA256)
    } else if n == 128 {
        Ok(HashType::SHA512)
    } else {
        Err(CrackError::InvalidDigestLength { len: n })
    }
}

/// Accepts a worker count in `1..=MAX_WORKERS`.
pub fn validate_worker_count(workers: usize) -> (r: Result<usize, CrackError>)
    ensures
        1 <= workers <= MAX_WORKERS ==> r == Ok::<usize, CrackError>(workers),
        !(1 <= workers <= MAX_WORKERS) ==> r == Err::<usize, CrackError>(
            CrackError::ConfigurationOutOfRange { workers },
        ),
{
    if 1 <= workers && workers <= MAX_WORKERS {
        Ok(workers)
    } else {
        Err(CrackError::ConfigurationOutOfRange { workers })
    }
}

} // verus!
