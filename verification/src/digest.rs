//! Digests of what is stored or left out.
use crate::text::{hex, hex_text};
use vstd::prelude::*;

verus! {

/// The SHA-256 digest of bytes.
pub uninterp spec fn sha256(bytes: Seq<u8>) -> Seq<u8>;

/// `sha2::Sha256::digest`: thirty-two bytes that depend on the given bytes alone.
#[verifier::external_body]
fn digest(bytes: &[u8]) -> (digest: Vec<u8>)
    ensures
        digest@ == sha256(bytes@),
        digest@.len() == 32,
{
    <sha2::Sha256 as sha2::Digest>::digest(bytes).to_vec()
}

/// Writes the SHA-256 digest of bytes in hexadecimal.
pub fn sha256_hex(value: &[u8]) -> (text: String)
    ensures
        text@ == hex(sha256(value@)),
        text@.len() == 64,
{
    let bytes = digest(value);
    proof {
        lemma_hex_len(bytes@);
    }
    hex_text(bytes.as_slice())
}

/// Two digits for each byte.
proof fn lemma_hex_len(bytes: Seq<u8>)
    ensures
        hex(bytes).len() == 2 * bytes.len(),
    decreases bytes.len(),
{
    if bytes.len() > 0 {
        lemma_hex_len(bytes.drop_last());
    }
}

} // verus!
