//! Content addresses: the SHA-256 digest of a byte string, written as `sha256:` followed by
//! 64 lower-case hexadecimal digits.

use crate::error::StorageError;
use crate::text::{chars_of, extend_chars, is_prefix, slice_of, starts_with, string_of};
use sha2::Digest;
use vstd::prelude::*;

verus! {

/// The SHA-256 hash of `data`, as the `sha2` crate computes it.
pub uninterp spec fn sha256(data: Seq<u8>) -> Seq<u8>;

/// `sha2::Sha256::digest` hashes the whole input in one call; the result is the SHA-256
/// hash of exactly the bytes given.
#[verifier::external_body]
fn sha256_bytes(data: &[u8]) -> (out: Vec<u8>)
    ensures
        out@ == sha256(data@),
{
    sha2::Sha256::digest(data).to_vec()
}

/// The lower-case hexadecimal digit of a value below sixteen.
pub open spec fn hex_digit(n: int) -> char {
    if n < 10 {
        (('0' as u8) + n) as char
    } else {
        (('a' as u8) + (n - 10)) as char
    }
}

/// Two lower-case hexadecimal digits for each byte, high half first.
pub open spec fn hex(bytes: Seq<u8>) -> Seq<char> {
    Seq::new(
        2 * bytes.len(),
        |i: int|
            if i % 2 == 0 {
                hex_digit(bytes[i / 2] as int / 16)
            } else {
                hex_digit(bytes[i / 2] as int % 16)
            },
    )
}

/// The prefix that names the hash algorithm: `sha256:`.
pub open spec fn sha_prefix() -> Seq<char> {
    seq!['s', 'h', 'a', '2', '5', '6', ':']
}

/// The content address of `data`.
pub open spec fn digest_of(data: Seq<u8>) -> Seq<char> {
    sha_prefix() + hex(sha256(data))
}

/// A digest with the `sha256:` prefix, added when it is missing.
pub open spec fn with_prefix(digest: Seq<char>) -> Seq<char> {
    if is_prefix(sha_prefix(), digest) {
        digest
    } else {
        sha_prefix() + digest
    }
}

/// A digest without the `sha256:` prefix.
pub open spec fn without_prefix(digest: Seq<char>) -> Seq<char> {
    if is_prefix(sha_prefix(), digest) {
        digest.skip(7)
    } else {
        digest
    }
}

/// A content address has the `sha256:` prefix already.
pub proof fn lemma_with_prefix_digest(data: Seq<u8>)
    ensures
        with_prefix(digest_of(data)) == digest_of(data),
{
    assert(digest_of(data).take(7) =~= sha_prefix());
}

fn hex_digit_of(n: u8) -> (c: char)
    requires
        n < 16,
    ensures
        c == hex_digit(n as int),
{
    if n < 10 {
        (('0' as u8) + n) as char
    } else {
        (('a' as u8) + (n - 10)) as char
    }
}

/// Writes `bytes` in lower-case hexadecimal.
pub fn to_hex(bytes: &[u8]) -> (out: Vec<char>)
    ensures
        out@ == hex(bytes@),
{
    let mut out: Vec<char> = Vec::new();
    let mut i: usize = 0;
    while i < bytes.len()
        invariant
            i <= bytes.len(),
            out@ == hex(bytes@.take(i as int)),
        decreases bytes.len() - i,
    {
        let b = bytes[i];
        out.push(hex_digit_of(b / 16));
        out.push(hex_digit_of(b % 16));
        assert(out@ =~= hex(bytes@.take(i + 1)));
        i += 1;
    }
    assert(bytes@.take(bytes.len() as int) =~= bytes@);
    out
}

fn prefix_chars() -> (out: Vec<char>)
    ensures
        out@ == sha_prefix(),
{
    let mut out: Vec<char> = Vec::new();
    out.push('s');
    out.push('h');
    out.push('a');
    out.push('2');
    out.push('5');
    out.push('6');
    out.push(':');
    assert(out@ =~= sha_prefix());
    out
}

/// The content address that goes with a hash: `sha256:` and the hash in hexadecimal.
pub fn digest_text(hash: &[u8]) -> (digest: String)
    ensures
        digest@ == sha_prefix() + hex(hash@),
{
    let mut out = prefix_chars();
    let digits = to_hex(hash);
    extend_chars(&mut out, digits.as_slice());
    string_of(out.as_slice())
}

/// The content address of `data`: `sha256:` and the hexadecimal SHA-256 hash.
pub fn calculate_digest(data: &[u8]) -> (digest: String)
    ensures
        digest@ == digest_of(data@),
{
    let hash = sha256_bytes(data);
    digest_text(hash.as_slice())
}

/// Puts the `sha256:` prefix before a digest that lacks it.
pub fn add_sha_header(digest: &str) -> (out: String)
    ensures
        out@ == with_prefix(digest@),
{
    let d = chars_of(digest);
    let p = prefix_chars();
    if starts_with(d.as_slice(), p.as_slice()) {
        string_of(d.as_slice())
    } else {
        let mut out = p;
        extend_chars(&mut out, d.as_slice());
        string_of(out.as_slice())
    }
}

/// Takes the `sha256:` prefix off a digest that has it.
pub fn strip_sha_header(digest: &str) -> (out: String)
    ensures
        out@ == without_prefix(digest@),
{
    let d = chars_of(digest);
    let p = prefix_chars();
    if starts_with(d.as_slice(), p.as_slice()) {
        let rest = slice_of(d.as_slice(), 7, d.len());
        assert(rest@ =~= d@.skip(7));
        string_of(rest.as_slice())
    } else {
        string_of(d.as_slice())
    }
}

/// Checks that `data` hashes to `digest`, which may come with or without the `sha256:`
/// prefix; a mismatch is a `DigestError`.
pub fn validate_digest(data: &[u8], digest: &str) -> (out: Result<(), StorageError>)
    ensures
        out == (if digest_of(data@) == with_prefix(digest@) {
            Ok::<(), StorageError>(())
        } else {
            Err::<(), StorageError>(StorageError::DigestError)
        }),
{
    let calculated = calculate_digest(data);
    let wanted = add_sha_header(digest);
    if crate::text::str_eq(calculated.as_str(), wanted.as_str()) {
        Ok(())
    } else {
        Err(StorageError::DigestError)
    }
}

} // verus!
