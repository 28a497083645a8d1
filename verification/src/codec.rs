//! Decoding of the payloads that arrive base64-encoded, and search with
//! regular expressions. The work is done by the `base64` and `regex` crates
//! and by std; what those calls return is named here and not restated.
use base64::Engine;
use vstd::prelude::*;

verus! {

#[verifier::external_type_specification]
#[verifier::external_body]
pub struct ExDecodeError(base64::DecodeError);

#[verifier::external_type_specification]
#[verifier::external_body]
pub struct ExRegexError(regex::Error);

/// What `base64::engine::general_purpose::URL_SAFE.decode` gives for the
/// UTF-8 bytes of `data`: the decoded bytes, or `None` when it refuses the
/// input.
pub uninterp spec fn base64_url_safe(data: Seq<char>) -> Option<Seq<u8>>;

/// What `String::from_utf8_lossy` makes of `bytes`.
pub uninterp spec fn utf8_lossy(bytes: Seq<u8>) -> Seq<char>;

/// Whether `regex::Regex::new` accepts `pattern`.
pub uninterp spec fn regex_valid(pattern: Seq<char>) -> bool;

/// The text of capture group 1 of the first match of `pattern` in `text`, as
/// `Regex::captures` finds it, or `None` when nothing matches.
pub uninterp spec fn regex_group1(pattern: Seq<char>, text: Seq<char>) -> Option<Seq<char>>;

/// The text of the first match of `pattern` in `text`, as `Regex::find`
/// finds it, or `None` when nothing matches.
pub uninterp spec fn regex_first_match(pattern: Seq<char>, text: Seq<char>) -> Option<Seq<char>>;

/// Decodes `data` with `base64`'s URL-safe engine (padding required), through
/// `Engine::decode`. The contract says only that the result is the one named
/// `base64_url_safe` for this input; the decoding rules are the crate's.
#[verifier::external_body]
pub(crate) fn base64_decode(data: &str) -> (r: Result<Vec<u8>, base64::DecodeError>)
    ensures
        r is Err <==> base64_url_safe(data@) is None,
        r matches Ok(v) ==> base64_url_safe(data@) == Some(v@),
{
    base64::engine::general_purpose::URL_SAFE.decode(data)
}

/// `String::from_utf8_lossy`: the bytes as text, invalid sequences replaced by
/// U+FFFD. The contract states that valid UTF-8 is decoded as such; how
/// invalid sequences are replaced is left to the name `utf8_lossy`.
#[verifier::external_body]
pub(crate) fn from_utf8_lossy(bytes: &[u8]) -> (r: String)
    ensures
        r@ == utf8_lossy(bytes@),
        vstd::utf8::valid_utf8(bytes@) ==> r@ == vstd::utf8::decode_utf8(bytes@),
{
    String::from_utf8_lossy(bytes).into_owned()
}

/// Compiles `pattern` with `regex::Regex::new` and returns capture group 1 of
/// the first match in `text` (`Regex::captures`). The result is the one named
/// `regex_group1`; a match whose group 1 took no part is reported as no match,
/// which the patterns of this crate, whose group 1 is not optional, never give.
#[verifier::external_body]
pub(crate) fn regex_capture(pattern: &str, text: &str) -> (r: Result<Option<String>, regex::Error>)
    ensures
        r is Err <==> !regex_valid(pattern@),
        r matches Ok(o) ==> match o {
            Some(g) => regex_group1(pattern@, text@) == Some(g@),
            None => regex_group1(pattern@, text@) is None,
        },
{
    let re = regex::Regex::new(pattern)?;
    Ok(re.captures(text).and_then(|c| c.get(1)).map(|m| m.as_str().to_string()))
}

/// Compiles `pattern` with `regex::Regex::new` and returns the text of the
/// first match in `text` (`Regex::find`), the one named `regex_first_match`.
#[verifier::external_body]
pub(crate) fn regex_find(pattern: &str, text: &str) -> (r: Result<Option<String>, regex::Error>)
    ensures
        r is Err <==> !regex_valid(pattern@),
        r matches Ok(o) ==> match o {
            Some(m) => regex_first_match(pattern@, text@) == Some(m@),
            None => regex_first_match(pattern@, text@) is None,
        },
{
    let re = regex::Regex::new(pattern)?;
    Ok(re.find(text).map(|m| m.as_str().to_string()))
}

} // verus!
