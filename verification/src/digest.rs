//! The 512-bit digest that links blocks.

use crypto::digest::Digest;
use crypto::sha2::Sha512;
use vstd::prelude::*;

verus! {

/// The lowercase hexadecimal SHA-512 digest of the UTF-8 bytes of `text`.
pub uninterp spec fn sha512_hex(text: Seq<char>) -> Seq<char>;

/// Feeds `text` to a fresh `crypto::sha2::Sha512` with `input_str` and reads
/// the digest with `result_str`. The contract names the result; that two
/// different texts give different digests is not claimed.
#[verifier::external_body]
pub(crate) fn sha512_hex_string(text: &str) -> (r: String)
    ensures
        r@ == sha512_hex(text@),
{
    let mut hasher = Sha512::new();
    hasher.input_str(text);
    hasher.result_str()
}

} // verus!
