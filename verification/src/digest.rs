//! SHA-256 digests in lower-case hexadecimal.
use crate::text;
use sha2::Digest;
use vstd::prelude::*;

verus! {

/// The SHA-256 digest of a byte string, in 64 lower-case hexadecimal digits.
pub uninterp spec fn sha256_hex(bytes: Seq<u8>) -> Seq<char>;

/// `sha2::Sha256::digest`: a digest is a function of the bytes, and its 32 bytes
/// are written as two lower-case hexadecimal digits each.
#[verifier::external_body]
pub(crate) fn sha256(bytes: &[u8]) -> (r: String)
    ensures
        r@ == sha256_hex(bytes@),
        text::is_lower_hex(r@, 64),
{
    sha2::Sha256::digest(bytes).iter().map(|byte| format!("{byte:02x}")).collect()
}

/// The digest of a text: that of its UTF-8 bytes.
pub open spec fn text_digest(content: Seq<char>) -> Seq<char> {
    sha256_hex(vstd::utf8::encode_utf8(content))
}

/// The digest of a text.
pub fn hash_content(content: &str) -> (r: String)
    ensures
        r@ == text_digest(content@),
        text::is_lower_hex(r@, 64),
{
    sha256(content.as_bytes())
}

} // verus!
