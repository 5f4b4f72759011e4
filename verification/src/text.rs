use vstd::prelude::*;
use base64::Engine;
use base64::prelude::BASE64_STANDARD;
use crate::error::CtbError;

verus! {

/// A character of the standard base64 alphabet, or the padding `=`.
pub open spec fn is_base64_char(c: char) -> bool {
    ('A' <= c && c <= 'Z') || ('a' <= c && c <= 'z') || ('0' <= c && c <= '9') || c == '+' || c == '/'
        || c == '='
}

/// The standard, padded base64 text of `bytes`.
pub uninterp spec fn base64_encoding(bytes: Seq<u8>) -> Seq<char>;

/// The bytes that a standard, padded base64 text decodes to; `None` for a text that is not one.
pub uninterp spec fn base64_decoding(text: Seq<char>) -> Option<Seq<u8>>;

/// The base64 text of `bytes` is made of alphabet and padding characters
/// only, and decodes back to them.
pub open spec fn base64_round_trips(bytes: Seq<u8>) -> bool {
    &&& base64_decoding(base64_encoding(bytes)) == Some(bytes)
    &&& forall|i: int| 0 <= i < base64_encoding(bytes).len() ==> is_base64_char(#[trigger] base64_encoding(bytes)[i])
}

/// Inputs this long or shorter have a base64 length that fits in a `usize`.
pub open spec fn base64_input_fits(len: nat) -> bool {
    len / 3 <= (usize::MAX - 4) as nat / 4
}

#[verifier::external_type_specification]
#[verifier::external_body]
pub struct ExDecodeError(base64::DecodeError);

/// Calls `Engine::encode` of `base64::prelude::BASE64_STANDARD`. Trusted: the
/// text is made of alphabet and padding characters only, and decoding it with
/// the same engine gives the bytes back.
#[verifier::external_body]
pub(crate) fn base64_encode(bytes: &[u8]) -> (r: String)
    requires
        base64_input_fits(bytes@.len()),
    ensures
        r@ == base64_encoding(bytes@),
        base64_decoding(r@) == Some(bytes@),
        forall|i: int| 0 <= i < r@.len() ==> is_base64_char(#[trigger] r@[i]),
{
    BASE64_STANDARD.encode(bytes)
}

/// Calls `Engine::decode` of `base64::prelude::BASE64_STANDARD` on the bytes of
/// a text. Trusted: it succeeds exactly where the decoding is defined, and
/// returns it.
#[verifier::external_body]
pub(crate) fn base64_decode_text(text: &str) -> (r: Result<Vec<u8>, base64::DecodeError>)
    ensures
        r is Ok <==> base64_decoding(text@) is Some,
        r matches Ok(v) ==> base64_decoding(text@) == Some(v@),
{
    BASE64_STANDARD.decode(text)
}

/// Unicode `White_Space`, the characters that `str::trim` removes.
pub open spec fn is_unicode_whitespace(c: char) -> bool {
    let n = c as nat;
    (9 <= n && n <= 13) || n == 32 || n == 0x85 || n == 0xa0 || n == 0x1680 || (0x2000 <= n && n <= 0x200a)
        || n == 0x2028 || n == 0x2029 || n == 0x202f || n == 0x205f || n == 0x3000
}

/// `s` without its leading whitespace.
pub open spec fn trim_start_spec(s: Seq<char>) -> Seq<char>
    decreases s.len(),
{
    if s.len() > 0 && is_unicode_whitespace(s[0]) {
        trim_start_spec(s.drop_first())
    } else {
        s
    }
}

/// `s` without its trailing whitespace.
pub open spec fn trim_end_spec(s: Seq<char>) -> Seq<char>
    decreases s.len(),
{
    if s.len() > 0 && is_unicode_whitespace(s.last()) {
        trim_end_spec(s.drop_last())
    } else {
        s
    }
}

/// `s` without leading and trailing whitespace.
pub open spec fn trim_spec(s: Seq<char>) -> Seq<char> {
    trim_end_spec(trim_start_spec(s))
}

/// Calls `str::trim`. Trusted: the result is the text without its leading
/// and trailing Unicode `White_Space` characters, as std documents.
#[verifier::external_body]
pub(crate) fn trim(s: &str) -> (r: &str)
    ensures
        r@ == trim_spec(s@),
{
    s.trim()
}

/// Decodes standard base64 after trimming surrounding whitespace.
pub fn base64_decode(str: &str) -> (r: Result<Vec<u8>, CtbError>)
    ensures
        r is Ok <==> base64_decoding(trim_spec(str@)) is Some,
        r matches Ok(v) ==> base64_decoding(trim_spec(str@)) == Some(v@),
        r is Err ==> r == Err::<Vec<u8>, CtbError>(CtbError::Base64),
{
    match base64_decode_text(trim(str)) {
        Ok(v) => Ok(v),
        Err(_) => Err(CtbError::Base64),
    }
}

/// Encodes bytes as standard, padded base64.
pub(crate) fn base64_encode_bytes(bytes: &[u8]) -> (r: Result<String, CtbError>)
    ensures
        r is Ok <==> base64_input_fits(bytes@.len()),
        r matches Ok(t) ==> t@ == base64_encoding(bytes@) && base64_round_trips(bytes@),
        r is Err ==> r == Err::<String, CtbError>(CtbError::Serialization),
{
    if bytes.len() / 3 <= (usize::MAX - 4) / 4 {
        Ok(base64_encode(bytes))
    } else {
        Err(CtbError::Serialization)
    }
}

/// A text made of base64 characters only has no whitespace to trim.
pub proof fn lemma_trim_base64(s: Seq<char>)
    requires
        forall|i: int| 0 <= i < s.len() ==> is_base64_char(#[trigger] s[i]),
    ensures
        trim_spec(s) == s,
{
    if s.len() > 0 {
        assert(is_base64_char(s[0]));
        assert(is_base64_char(s[s.len() - 1]));
    }
    assert(trim_start_spec(s) == s);
    assert(trim_end_spec(s) == s);
}

/// The base64 text of `bytes` decodes back to them even after trimming.
pub proof fn lemma_trim_base64_text(bytes: Seq<u8>, text: Seq<char>)
    requires
        text == base64_encoding(bytes),
        base64_decoding(text) == Some(bytes),
        forall|i: int| 0 <= i < text.len() ==> is_base64_char(#[trigger] text[i]),
    ensures
        base64_decoding(trim_spec(text)) == Some(bytes),
{
    lemma_trim_base64(text);
}

} // verus!
