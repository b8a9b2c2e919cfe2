//! Absolute URLs, validated and normalized through the `url` crate.

use vstd::prelude::*;

verus! {

/// The normalized serialization of an absolute URL string, if it parses.
pub uninterp spec fn url_parse_of(s: Seq<char>) -> Option<Seq<char>>;

/// Relies on `url::Url::parse`, which accepts exactly the absolute URLs and
/// normalizes them, and on `String::from(Url)`, which returns the parsed
/// URL's serialization; parsing a serialization gives that same URL back.
#[verifier::external_body]
pub fn parse_absolute_url(s: &str) -> (r: Option<String>)
    ensures
        (r is Some) == (url_parse_of(s@) is Some),
        r matches Some(u) ==> url_parse_of(s@) == Some(u@) && url_parse_of(u@) == Some(u@),
{
    match url::Url::parse(s) {
        Ok(u) => Some(String::from(u)),
        Err(_) => None,
    }
}

} // verus!
