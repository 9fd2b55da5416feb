//! SHA-256 digests.
use sha2::{Digest, Sha256};
use vstd::prelude::*;
use vstd::slice::slice_to_vec;

verus! {

/// Length in bytes of a SHA-256 digest.
pub const DIGEST_SIZE: usize = 32;

/// Length in bytes of the longest message that SHA-256 is defined on: the
/// algorithm pads a message with its length in bits, as a 64-bit number.
pub const SHA256_MAX_MESSAGE_LEN: u64 = 0x1fff_ffff_ffff_ffff;

/// The SHA-256 digest of `message`.
pub uninterp spec fn sha256(message: Seq<u8>) -> [u8; 32];

/// `Sha256::digest` of the `sha2` crate: its output is the SHA-256 digest of the
/// message, 32 bytes that depend on the bytes of the message alone.
///
/// The crate counts the bits of the message in a `u64`, and nothing is claimed
/// of a message for which that count overflows.
#[verifier::external_body]
fn sha256_digest(message: &[u8]) -> (digest: [u8; 32])
    requires
        message@.len() <= SHA256_MAX_MESSAGE_LEN,
    ensures
        digest == sha256(message@),
{
    Sha256::digest(message).into()
}

/// The SHA-256 digest of `message`, as a vector.
pub fn digest(message: &[u8]) -> (digest: Vec<u8>)
    requires
        message@.len() <= SHA256_MAX_MESSAGE_LEN,
    ensures
        digest@ == sha256(message@)@,
        digest@.len() == DIGEST_SIZE,
{
    let bytes = sha256_digest(message);
    slice_to_vec(bytes.as_slice())
}

} // verus!
