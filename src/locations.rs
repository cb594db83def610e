//! URL parsing and relative resolution, done by the `url` crate.

use vstd::prelude::*;

verus! {

/// The serialization of `s` parsed as an absolute URL, or `None` where `s`
/// is not one.
pub uninterp spec fn url_parsed(s: Seq<char>) -> Option<Seq<char>>;

/// The serialization of `rel` resolved against the absolute URL `base`, or
/// `None` where `base` is not an absolute URL or `rel` does not resolve.
pub uninterp spec fn url_joined(base: Seq<char>, rel: Seq<char>) -> Option<Seq<char>>;

/// Relies on `url::Url::parse`, and on the `String` that `Url` turns into,
/// for the canonical form of an absolute URL.
#[verifier::external_body]
pub(crate) fn parse_absolute(s: &str) -> (r: Option<String>)
    ensures
        match r {
            Some(u) => url_parsed(s@) == Some(u@),
            None => url_parsed(s@) is None,
        },
{
    url::Url::parse(s).ok().map(String::from)
}

/// Relies on `url::Url::parse` for the base and on `url::Url::join` for
/// resolving `rel` against it.
#[verifier::external_body]
pub(crate) fn join_relative(base: &str, rel: &str) -> (r: Option<String>)
    ensures
        match r {
            Some(u) => url_joined(base@, rel@) == Some(u@),
            None => url_joined(base@, rel@) is None,
        },
{
    url::Url::parse(base).and_then(|b| b.join(rel)).ok().map(String::from)
}

} // verus!
