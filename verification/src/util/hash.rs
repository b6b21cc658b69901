//! Content hashes: the SHA-256 digest of data in lower-case hex, the key
//! under which the backup stores blobs.
use vstd::prelude::*;

use sha2::{Digest, Sha256};

use crate::storage::util::{encode_hex, hex_text};

verus! {

/// The SHA-256 digest of a byte sequence.
pub uninterp spec fn sha256_digest(data: Seq<u8>) -> Seq<u8>;

/// Computes the SHA-256 digest of `data`.
///
/// Trusted: calls `sha2::Sha256::digest` (the `Digest` trait's one-shot
/// hash) and copies the 32-byte output into a vector. The result is named
/// `sha256_digest` of the data; its length, 32, is the output size that
/// `Sha256` declares.
#[verifier::external_body]
fn sha256(data: &[u8]) -> (digest: Vec<u8>)
    ensures
        digest@ == sha256_digest(data@),
        digest@.len() == 32,
{
    Sha256::digest(data).to_vec()
}

/// The content hash of `data`: its SHA-256 digest as 64 lower-case hex
/// digits.
pub fn content_hash(data: &[u8]) -> (hash: String)
    ensures
        hash@ == hex_text(sha256_digest(data@)),
        hash@.len() == 64,
{
    let digest = sha256(data);
    encode_hex(digest.as_slice())
}

/// A SHA-256 hasher that content is fed to piece by piece, as it is read.
#[verifier::external_body]
pub struct ContentHasher {
    inner: Sha256,
}

/// The bytes fed to a hasher so far, in order.
pub uninterp spec fn hasher_input(hasher: ContentHasher) -> Seq<u8>;

/// A hasher that has been fed nothing.
///
/// Trusted: calls `Sha256::new`, a hasher over no input yet.
#[verifier::external_body]
fn sha256_start() -> (hasher: ContentHasher)
    ensures
        hasher_input(hasher) == Seq::<u8>::empty(),
{
    ContentHasher { inner: Sha256::new() }
}

/// Feeds bytes to a hasher.
///
/// Trusted: calls `Digest::update` on the inner `Sha256`, which appends the
/// bytes to the hashed input.
#[verifier::external_body]
fn sha256_feed(hasher: &mut ContentHasher, data: &[u8])
    ensures
        hasher_input(*final(hasher)) == hasher_input(*old(hasher)) + data@,
{
    hasher.inner.update(data)
}

/// The digest of all bytes fed to a hasher.
///
/// Trusted: calls `Digest::finalize` on the inner `Sha256` and copies the
/// 32-byte output into a vector: the SHA-256 digest of the input, the same
/// as the one-shot `Sha256::digest` of the same bytes.
#[verifier::external_body]
fn sha256_finish(hasher: ContentHasher) -> (digest: Vec<u8>)
    ensures
        digest@ == sha256_digest(hasher_input(hasher)),
        digest@.len() == 32,
{
    hasher.inner.finalize().to_vec()
}

/// A new content hasher, fed nothing yet.
pub fn hasher_new() -> (hasher: ContentHasher)
    ensures
        hasher_input(hasher) == Seq::<u8>::empty(),
{
    sha256_start()
}

/// Feeds the next bytes of the content to the hasher.
pub fn hasher_update(hasher: &mut ContentHasher, data: &[u8])
    ensures
        hasher_input(*final(hasher)) == hasher_input(*old(hasher)) + data@,
{
    sha256_feed(hasher, data)
}

/// The content hash of everything fed to the hasher: the same as
/// `content_hash` of those bytes in one piece.
pub fn finish_content_hash(hasher: ContentHasher) -> (hash: String)
    ensures
        hash@ == hex_text(sha256_digest(hasher_input(hasher))),
        hash@.len() == 64,
{
    let digest = sha256_finish(hasher);
    encode_hex(digest.as_slice())
}

} // verus!
