//! The signature that closes a thinking block.
use vstd::prelude::*;
use vstd::utf8::encode_utf8;
use base64::engine::general_purpose::STANDARD;
use base64::Engine;
use sha2::{Digest, Sha256};

verus! {

/// The SHA-256 digest of a byte sequence.
pub uninterp spec fn sha256_of(bytes: Seq<u8>) -> Seq<u8>;

/// Standard base64 (RFC 4648 alphabet, with padding) of a byte sequence.
pub uninterp spec fn base64_of(bytes: Seq<u8>) -> Seq<char>;

/// Relies on sha2's `Sha256::digest`: the 32-byte SHA-256 digest of the input.
#[verifier::external_body]
fn sha256(bytes: &[u8]) -> (r: Vec<u8>)
    ensures
        r@ == sha256_of(bytes@),
        r@.len() == 32,
{
    Sha256::digest(bytes).to_vec()
}

/// Relies on base64's `STANDARD` engine `encode`: standard alphabet, padded.
#[verifier::external_body]
fn base64_standard(bytes: &[u8]) -> (r: String)
    ensures
        r@ == base64_of(bytes@),
{
    STANDARD.encode(bytes)
}

/// The signature of a thinking text: base64 of the SHA-256 of its UTF-8 bytes.
pub open spec fn signature_of(thinking: Seq<char>) -> Seq<char> {
    base64_of(sha256_of(encode_utf8(thinking)))
}

/// Computes the signature of a thinking text.
pub fn generate_signature(thinking_content: &str) -> (r: String)
    ensures
        r@ == signature_of(thinking_content@),
{
    let digest = sha256(thinking_content.as_bytes());
    base64_standard(digest.as_slice())
}

} // verus!
