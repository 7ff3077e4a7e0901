//! The digest primitive: SHA-1 over bytes, rendered as 40 hex digits.
//! The digest itself comes from an outside library and is only named here;
//! everything the key derivation states is relative to that name.

use vstd::prelude::*;

verus! {

/// The 40-hex-digit SHA-1 of a byte sequence, as the digest library
/// renders it: a function of the bytes alone, shared by every process.
pub uninterp spec fn sha1_hex_of(data: Seq<u8>) -> Seq<char>;

/// Relies on `sha1_smol::Sha1` (`Sha1::from`, `digest`, and `Digest`'s
/// hex rendering): the SHA-1 of the input bytes as 40 hex digits, a
/// function of those bytes alone.
#[verifier::external_body]
fn sha1_hex(data: &[u8]) -> (r: String)
    ensures
        r@ == sha1_hex_of(data@),
        r@.len() == 40,
{
    sha1_smol::Sha1::from(data).digest().to_string()
}

/// The digest of one input file's byte contents: what the cache key folds
/// in for every source file, extern artifact, and compiler shared library.
pub fn file_digest(data: &[u8]) -> (r: String)
    ensures
        r@ == sha1_hex_of(data@),
        r@.len() == 40,
{
    sha1_hex(data)
}

/// The digest of a textual transcript's UTF-8 bytes.
pub fn transcript_digest(t: &str) -> (r: String)
    ensures
        r@ == sha1_hex_of(vstd::utf8::encode_utf8(t@)),
        r@.len() == 40,
{
    sha1_hex(t.as_bytes())
}

} // verus!
