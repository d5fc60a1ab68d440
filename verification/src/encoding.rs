//! Base64, as the `base64` crate computes it: the standard alphabet with
//! padding for `.wav` files embedded in backups, and the URL-safe alphabet
//! without padding for cache file names.
use vstd::prelude::*;

use base64::Engine;
use vstd::string::StringSliceAdditionalSpecFns;

verus! {

/// What `base64::engine::general_purpose::STANDARD.encode` returns for these
/// bytes.
pub uninterp spec fn standard_encoding(bytes: Seq<u8>) -> Seq<char>;

/// What `base64::engine::general_purpose::STANDARD.decode` returns for this
/// text: the bytes, or `None` where it reports an error.
pub uninterp spec fn standard_decoding(text: Seq<char>) -> Option<Seq<u8>>;

/// What `base64::engine::general_purpose::URL_SAFE_NO_PAD.encode` returns for
/// the UTF-8 bytes of this text.
pub uninterp spec fn url_safe_unpadded_encoding(text: Seq<char>) -> Seq<char>;

/// Encodes bytes with `base64::engine::general_purpose::STANDARD.encode`.
/// The contract names the result and claims, as the crate documents, that
/// decoding it with the same engine gives the bytes back. The crate's
/// `encode` panics when the encoded length overflows `usize`, which a
/// length of at most `isize::MAX` rules out.
#[verifier::external_body]
pub(crate) fn base64_standard_encode(bytes: &[u8]) -> (r: String)
    requires
        bytes@.len() <= isize::MAX,
    ensures
        r@ == standard_encoding(bytes@),
        standard_decoding(r@) == Some(bytes@),
{
    base64::engine::general_purpose::STANDARD.encode(bytes)
}

/// Decodes text with `base64::engine::general_purpose::STANDARD.decode`,
/// giving `None` where the crate reports an error. The contract names the
/// result.
#[verifier::external_body]
pub(crate) fn base64_standard_decode(text: &str) -> (r: Option<Vec<u8>>)
    ensures
        match r {
            Some(b) => standard_decoding(text@) == Some(b@),
            None => standard_decoding(text@) is None,
        },
{
    base64::engine::general_purpose::STANDARD.decode(text.as_bytes()).ok()
}

/// Encodes text (its UTF-8 bytes) with
/// `base64::engine::general_purpose::URL_SAFE_NO_PAD.encode`. The contract
/// names the result; the crate documents that it uses only ASCII letters,
/// digits, `-` and `_`, which is not stated here.
#[verifier::external_body]
pub(crate) fn base64_url_safe_unpadded_encode(text: &str) -> (r: String)
    requires
        text.spec_bytes().len() <= isize::MAX,
    ensures
        r@ == url_safe_unpadded_encoding(text@),
{
    base64::engine::general_purpose::URL_SAFE_NO_PAD.encode(text.as_bytes())
}


/// UTF-8 takes at most four bytes per character.
pub proof fn lemma_utf8_len_bound(chars: Seq<char>)
    ensures
        vstd::utf8::encode_utf8(chars).len() <= 4 * chars.len(),
    decreases chars.len(),
{
    if chars.len() > 0 {
        lemma_utf8_len_bound(chars.drop_first());
        assert(vstd::utf8::encode_scalar(chars[0] as u32).len() <= 4);
    }
}

} // verus!
