//! Digests by which generated identifiers stay the same from run to run.

use vstd::prelude::*;
use vstd::string::StringSliceAdditionalSpecFns;

verus! {

/// The BLAKE3 digest of a sequence of bytes, in hexadecimal.
pub uninterp spec fn blake3_hex(bytes: Seq<u8>) -> Seq<char>;

/// `blake3::hash` and `to_hex`: the digest of the bytes as 64 hexadecimal
/// characters. It depends on the bytes alone.
#[verifier::external_body]
fn hash_hex(bytes: &[u8]) -> (r: String)
    ensures
        r@ == blake3_hex(bytes@),
        r@.len() == 64,
{
    blake3::hash(bytes).to_hex().to_string()
}

/// A fixed prefix and the digest of a text.
pub open spec fn digest_name(prefix: Seq<char>, identifier: Seq<char>) -> Seq<char> {
    prefix + blake3_hex(vstd::utf8::encode_utf8(identifier))
}

/// Builds a name from a prefix and the digest of a text.
pub fn digest_named(prefix: &str, identifier: &str) -> (r: String)
    ensures
        r@ == digest_name(prefix@, identifier@),
        r@.len() == prefix@.len() + 64,
{
    let hex: String = hash_hex(identifier.as_bytes());
    crate::text::joined(prefix, hex.as_str())
}

} // verus!
