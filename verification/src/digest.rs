//! SHA-256 digests and their lowercase hexadecimal rendering.

use sha2::{Digest, Sha256};
use vstd::prelude::*;

verus! {

/// The SHA-256 digest of `data`, as computed by `sha2::Sha256::digest`.
pub uninterp spec fn sha256(data: Seq<u8>) -> Seq<u8>;

/// The lowercase hexadecimal digit for a value in `0..16`.
pub open spec fn hex_digit(nibble: int) -> char {
    seq!['0', '1', '2', '3', '4', '5', '6', '7', '8', '9', 'a', 'b', 'c', 'd', 'e', 'f'][nibble]
}

/// Two lowercase hexadecimal digits per byte, high nibble first.
pub open spec fn hex_lower(data: Seq<u8>) -> Seq<char> {
    Seq::new(
        2 * data.len(),
        |i: int|
            if i % 2 == 0 {
                hex_digit(data[i / 2] as int / 16)
            } else {
                hex_digit(data[i / 2] as int % 16)
            },
    )
}

/// The hash string of a byte string: its SHA-256 digest in lowercase hexadecimal.
pub open spec fn hash_hex(data: Seq<u8>) -> Seq<char> {
    hex_lower(sha256(data))
}

/// Calls `sha2::Sha256::digest`, the one-shot form of the SHA-256 hasher.
/// Trusted: the bytes returned are the SHA-256 digest of `data`, and there are
/// 32 of them (the hasher's fixed output size).
#[verifier::external_body]
fn sha256_digest(data: &[u8]) -> (out: Vec<u8>)
    ensures
        out@ == sha256(data@),
        out@.len() == 32,
{
    Sha256::digest(data).to_vec()
}

/// Calls `hex::encode`. Trusted: each byte becomes two characters drawn from
/// `0123456789abcdef`, the high four bits first, in the order of the input.
#[verifier::external_body]
fn hex_encode(data: &[u8]) -> (text: String)
    ensures
        text@ == hex_lower(data@),
{
    hex::encode(data)
}

/// Hashes `data` with SHA-256 and renders the digest as 64 lowercase
/// hexadecimal characters.
pub fn sha256_hex(data: &[u8]) -> (text: String)
    ensures
        text@ == hash_hex(data@),
        text@.len() == 64,
{
    let raw = sha256_digest(data);
    hex_encode(raw.as_slice())
}

} // verus!
