use vstd::prelude::*;

use sha2::Digest;

use crate::hash_type::{hash_type_for_len, HashType};

verus! {

/// Lowercase hex MD5 digest of the UTF-8 bytes of a word.
pub uninterp spec fn md5_hex(word: Seq<char>) -> Seq<char>;

/// Lowercase hex SHA-1 digest of the UTF-8 bytes of a word.
pub uninterp spec fn sha1_hex(word: Seq<char>) -> Seq<char>;

/// Lowercase hex SHA-256 digest of the UTF-8 bytes of a word.
pub uninterp spec fn sha256_hex(word: Seq<char>) -> Seq<char>;

/// Lowercase hex SHA-512 digest of the UTF-8 bytes of a word.
pub uninterp spec fn sha512_hex(word: Seq<char>) -> Seq<char>;

/// A word with leading and trailing whitespace removed.
pub uninterp spec fn trimmed(s: Seq<char>) -> Seq<char>;

/// A lowercase hexadecimal digit.
pub open spec fn is_hex_digit(c: char) -> bool {
    ('0' <= c && c <= '9') || ('a' <= c && c <= 'f')
}

/// Every character of `s` is a lowercase hexadecimal digit.
pub open spec fn is_lower_hex(s: Seq<char>) -> bool {
    forall|i: int| 0 <= i < s.len() ==> is_hex_digit(#[trigger] s[i])
}

/// Number of hex characters in a digest of algorithm `t`.
pub open spec fn digest_len(t: HashType) -> nat {
    match t {
        HashType::MD5 => 32,
        HashType::SHA1 => 40,
        HashType::SHA256 => 64,
        HashType::SHA512 => 128,
    }
}

/// An ASCII letter or digit, which is never whitespace.
pub open spec fn is_ascii_alnum(c: char) -> bool {
    ('0' <= c && c <= '9') || ('a' <= c && c <= 'z') || ('A' <= c && c <= 'Z')
}

/// The digest of `word` under algorithm `t`.
pub open spec fn digest_of(t: HashType, word: Seq<char>) -> Seq<char> {
    match t {
        HashType::MD5 => md5_hex(word),
        HashType::SHA1 => sha1_hex(word),
        HashType::SHA256 => sha256_hex(word),
        HashType::SHA512 => sha512_hex(word),
    }
}

/// Relies on `md5::compute` and the `LowerHex` impl of `md5::Digest`, which
/// writes each byte as two lowercase hex digits.
#[verifier::external_body]
fn get_md5_hash(word: &str) -> (r: String)
    ensures
        r@ == md5_hex(word@),
        r@.len() == 32,
        is_lower_hex(r@),
{
    format!("{:x}", md5::compute(word))
}

/// Relies on `sha1::Sha1` through the `Digest` trait and `LowerHex` on its output,
/// which writes each byte as two lowercase hex digits.
#[verifier::external_body]
fn get_sha1_hash(word: &str) -> (r: String)
    ensures
        r@ == sha1_hex(word@),
        r@.len() == 40,
        is_lower_hex(r@),
{
    let mut hasher = sha1::Sha1::new();
    hasher.update(word);
    format!("{:x}", hasher.finalize())
}

/// Relies on `sha2::Sha256` through the `Digest` trait and `LowerHex` on its output,
/// which writes each byte as two lowercase hex digits.
#[verifier::external_body]
fn get_sha256_hash(word: &str) -> (r: String)
    ensures
        r@ == sha256_hex(word@),
        r@.len() == 64,
        is_lower_hex(r@),
{
    let mut hasher = sha2::Sha256::new();
    hasher.update(word);
    format!("{:x}", hasher.finalize())
}

/// Relies on `sha2::Sha512` through the `Digest` trait and `LowerHex` on its output,
/// which writes each byte as two lowercase hex digits.
#[verifier::external_body]
fn get_sha512_hash(word: &str) -> (r: String)
    ensures
        r@ == sha512_hex(word@),
        r@.len() == 128,
        is_lower_hex(r@),
{
    let mut hasher = sha2::Sha512::new();
    hasher.update(word);
    format!("{:x}", hasher.finalize())
}

/// Relies on `str::trim`: the result depends on the characters alone, is no
/// longer than the input, and only whitespace is removed, so a word that
/// starts and ends with a letter or digit is kept whole.
#[verifier::external_body]
pub(crate) fn trim_word(s: &str) -> (r: String)
    ensures
        r@ == trimmed(s@),
        r@.len() <= s@.len(),
        s@.len() > 0 && is_ascii_alnum(s@[0]) && is_ascii_alnum(s@.last()) ==> r@ == s@,
{
    s.trim().to_string()
}

/// Computes the digest of `word` with the algorithm `t`.
pub fn digest(t: HashType, word: &str) -> (r: String)
    ensures
        r@ == digest_of(t, word@),
        r@.len() == digest_len(t),
        hash_type_for_len(r@.len()) == Some(t),
        is_lower_hex(r@),
{
    match t {
        HashType::MD5 => get_md5_hash(word),
        HashType::SHA1 => get_sha1_hash(word),
        HashType::SHA256 => get_sha256_hash(word),
        HashType::SHA512 => get_sha512_hash(word),
    }
}

} // verus!
