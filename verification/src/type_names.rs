use vstd::prelude::*;
use regex::Regex;
use crate::error::CtbError;

verus! {

/// The pattern that picks the first path segment out of a Rust type name.
pub const TYPE_SEGMENT_PATTERN: &'static str = "::([a-zA-Z0-9_]+)";

/// Whether `pattern` is a regular expression that the `regex` crate accepts.
pub uninterp spec fn regex_compiles(pattern: Seq<char>) -> bool;

/// The text of the first capture group of the leftmost match of `pattern` in
/// `text`, or `None` where nothing matches.
pub uninterp spec fn regex_first_capture(pattern: Seq<char>, text: Seq<char>) -> Option<Seq<char>>;

#[verifier::external_type_specification]
#[verifier::external_body]
pub struct ExRegexError(regex::Error);

/// Calls `regex::Regex::new` on `pattern`, then `Regex::captures` on `text`
/// and takes capture group 1. Trusted: compiling fails exactly where the
/// pattern is not accepted; otherwise the result is the named capture.
#[verifier::external_body]
pub(crate) fn first_capture(pattern: &str, text: &str) -> (r: Result<Option<String>, regex::Error>)
    ensures
        r is Ok <==> regex_compiles(pattern@),
        r matches Ok(c) ==> match c {
            Some(s) => regex_first_capture(pattern@, text@) == Some(s@),
            None => regex_first_capture(pattern@, text@) is None,
        },
{
    let re = Regex::new(pattern)?;
    Ok(re.captures(text).and_then(|caps| caps.get(1).map(|m| m.as_str().to_string())))
}

/// What `type_name_of` returns for a compiler type name.
pub open spec fn type_name_of_spec(full_name: Seq<char>) -> Result<Seq<char>, CtbError> {
    if regex_compiles(TYPE_SEGMENT_PATTERN@) {
        match regex_first_capture(TYPE_SEGMENT_PATTERN@, full_name) {
            Some(s) => Ok(s),
            None => Err(CtbError::TypeName),
        }
    } else {
        Err(CtbError::TypeName)
    }
}

/// The first path segment of a compiler type name (the crate's name for
/// the type's module path), as text; an error where there is none.
pub fn type_name_of(full_name: &str) -> (r: Result<String, CtbError>)
    ensures
        match type_name_of_spec(full_name@) {
            Ok(s) => r matches Ok(t) && t@ == s,
            Err(e) => r == Err::<String, CtbError>(e),
        },
{
    match first_capture(TYPE_SEGMENT_PATTERN, full_name) {
        Ok(Some(s)) => Ok(s),
        Ok(None) => Err(CtbError::TypeName),
        Err(_) => Err(CtbError::TypeName),
    }
}

/// What `type_name_or_default` returns for a compiler type name.
pub open spec fn type_name_or_default_spec(full_name: Seq<char>) -> Seq<char> {
    if regex_compiles(TYPE_SEGMENT_PATTERN@) {
        match regex_first_capture(TYPE_SEGMENT_PATTERN@, full_name) {
            Some(s) => s,
            None => Seq::empty(),
        }
    } else {
        Seq::empty()
    }
}

/// As `type_name_of`, with the empty text where there is no segment.
pub fn type_name_or_default(full_name: &str) -> (r: String)
    ensures
        r@ == type_name_or_default_spec(full_name@),
{
    match type_name_of(full_name) {
        Ok(s) => s,
        Err(_) => String::new(),
    }
}

} // verus!
